//! Reading `git` output: the records of `git log` with the field and
//! record separators, the per-file line counts of `git show --numstat`, and
//! the arguments and filters of a commit query.

use vstd::prelude::*;
use crate::git::{CommitStat, CommitStatFile, DateRange, LocalCommit, MatchDimension, RangePreset, RepoCommits};
use crate::text::{all_digits, digits_value, is_digit, is_ws, lemma_str_lt_order, trim_end_seq, trim_start_seq};
use crate::channels::strip_trailing;
use crate::git::CommitDiff;
use crate::tasks::utf8_len;
use crate::text::{
    lowercase_of, seq_contains, to_lowercase, contains, str_less, str_lt, chars_of, owned, parse_usize, parse_usize_spec, push_char, push_str, slice_chars, string_of,
    trim_chars, trim_seq,
};
use crate::commit_link::strs;

verus! {

/// `str::split` on one character, scanning from `i`: the pieces between
/// separators, the empty ones included.
pub open spec fn split_scan(s: Seq<char>, sep: char, i: nat) -> Seq<Seq<char>>
    decreases s.len(), s.len() - i,
{
    if i >= s.len() {
        seq![s]
    } else if s[i as int] == sep {
        seq![s.take(i as int)] + split_scan(s.subrange(i as int + 1, s.len() as int), sep, 0)
    } else {
        split_scan(s, sep, i + 1)
    }
}

/// The pieces of `s` between occurrences of `sep`.
pub open spec fn split_on(s: Seq<char>, sep: char) -> Seq<Seq<char>> {
    split_scan(s, sep, 0)
}

/// Splits a text at each occurrence of a character.
pub fn split_char(s: &str, sep: char) -> (r: Vec<String>)
    ensures
        strs(r) == split_on(s@, sep),
{
    let v = chars_of(s);
    let ghost t = v@;
    let mut out: Vec<String> = Vec::new();
    let mut start: usize = 0;
    let mut i: usize = 0;
    assert(t.subrange(0, t.len() as int) =~= t);
    while i < v.len()
        invariant
            v@ == t,
            t == s@,
            start <= i <= v.len(),
            split_on(t, sep) == strs(out) + split_scan(t.subrange(start as int, t.len() as int), sep, (i - start) as nat),
        decreases v.len() - i,
    {
        let ghost sub = t.subrange(start as int, t.len() as int);
        let ghost k = (i - start) as nat;
        if v[i] == sep {
            assert(sub[k as int] == sep);
            let ghost rest = split_scan(sub.subrange(k as int + 1, sub.len() as int), sep, 0);
            let piece = string_of(&slice_chars(&v, start, i));
            assert(piece@ =~= sub.take(k as int));
            let ghost before = strs(out);
            out.push(piece);
            assert(strs(out) =~= before.push(piece@));
            assert(sub.subrange(k as int + 1, sub.len() as int) =~= t.subrange(i + 1, t.len() as int));
            assert(before + (seq![sub.take(k as int)] + rest) =~= strs(out) + rest);
            start = i + 1;
            i = i + 1;
        } else {
            i = i + 1;
        }
    }
    let ghost sub = t.subrange(start as int, t.len() as int);
    let last = string_of(&slice_chars(&v, start, v.len()));
    assert(last@ =~= sub);
    let ghost before = strs(out);
    out.push(last);
    assert(strs(out) =~= before + seq![sub]);
    out
}

/// Pieces joined with a separator character between them.
pub open spec fn join_sep(parts: Seq<Seq<char>>, sep: char) -> Seq<char>
    decreases parts.len(),
{
    if parts.len() == 0 {
        Seq::empty()
    } else if parts.len() == 1 {
        parts[0]
    } else {
        join_sep(parts.drop_last(), sep).push(sep) + parts.last()
    }
}

pub(crate) fn join_from(parts: &Vec<String>, from: usize, sep: char) -> (r: String)
    requires
        from <= parts.len(),
    ensures
        r@ == join_sep(strs(*parts).skip(from as int), sep),
{
    let mut out = String::new();
    let mut i = from;
    assert(strs(*parts).skip(from as int).take(0) =~= Seq::<Seq<char>>::empty());
    while i < parts.len()
        invariant
            from <= i <= parts.len(),
            out@ == join_sep(strs(*parts).skip(from as int).take(i - from), sep),
        decreases parts.len() - i,
    {
        let ghost pre = strs(*parts).skip(from as int).take(i - from);
        let ghost nxt = strs(*parts).skip(from as int).take(i + 1 - from);
        assert(nxt.drop_last() =~= pre);
        assert(nxt.last() == parts@[i as int]@);
        if i > from {
            push_char(&mut out, sep);
        }
        push_str(&mut out, parts[i].as_str());
        assert(i == from ==> pre.len() == 0 && nxt.len() == 1);
        i = i + 1;
    }
    assert(strs(*parts).skip(from as int).take(parts.len() - from) =~= strs(*parts).skip(from as int));
    out
}

/// `s` without its leading line breaks.
pub open spec fn strip_leading_nl(s: Seq<char>) -> Seq<char>
    decreases s.len(),
{
    if s.len() > 0 && s[0] == '\n' {
        strip_leading_nl(s.drop_first())
    } else {
        s
    }
}

fn strip_leading_nl_exec(v: &Vec<char>) -> (r: Vec<char>)
    ensures
        r@ == strip_leading_nl(v@),
{
    let mut i: usize = 0;
    assert(v@.skip(0) =~= v@);
    while i < v.len() && v[i] == '\n'
        invariant
            i <= v.len(),
            strip_leading_nl(v@) == strip_leading_nl(v@.skip(i as int)),
        decreases v.len() - i,
    {
        assert(v@.skip(i as int).drop_first() =~= v@.skip(i + 1));
        i = i + 1;
    }
    let r = slice_chars(v, i, v.len());
    assert(r@ =~= v@.skip(i as int));
    r
}

/// Scanning from character `i` with `acc` bytes before it: the number of
/// characters in the first `n` bytes; -1 when the text is shorter; -2 when
/// byte `n` falls inside a character.
pub open spec fn cut_bytes(s: Seq<char>, n: nat, i: nat, acc: nat) -> int
    decreases s.len() - i,
{
    if acc == n {
        i as int
    } else if acc > n {
        -2
    } else if i >= s.len() {
        -1
    } else {
        cut_bytes(s, n, i + 1, acc + utf8_len(s[i as int]))
    }
}

fn cut_bytes_exec(v: &Vec<char>, n: u64) -> (r: i64)
    requires
        n <= 1000,
    ensures
        r == cut_bytes(v@, n as nat, 0, 0),
{
    let mut i: usize = 0;
    let mut acc: u64 = 0;
    while acc < n && i < v.len()
        invariant
            i <= v.len(),
            acc <= n + 3,
            n <= 1000,
            i <= acc,
            cut_bytes(v@, n as nat, i as nat, acc as nat) == cut_bytes(v@, n as nat, 0, 0),
        decreases v.len() - i,
    {
        let u = v[i] as u32;
        let b: u64 = if u < 0x80 {
            1
        } else if u < 0x800 {
            2
        } else if u < 0x10000 {
            3
        } else {
            4
        };
        acc = acc + b;
        i = i + 1;
    }
    if acc == n {
        i as i64
    } else if acc > n {
        -2
    } else {
        -1
    }
}

proof fn lemma_cut_bounds(s: Seq<char>, n: nat, i: nat, acc: nat)
    requires
        i <= s.len(),
    ensures
        cut_bytes(s, n, i, acc) <= s.len(),
        cut_bytes(s, n, i, acc) >= 0 ==> cut_bytes(s, n, i, acc) >= i,
    decreases s.len() - i,
{
    if acc < n && i < s.len() {
        lemma_cut_bounds(s, n, i + 1, acc + utf8_len(s[i as int]));
    }
}

/// The short form of a commit id: its first 7 bytes when longer.
pub open spec fn short_sha_spec(sha: Seq<char>) -> Seq<char> {
    let k = cut_bytes(sha, 7, 0, 0);
    if k >= 0 && k < sha.len() {
        sha.take(k)
    } else {
        sha
    }
}

/// The first 7 bytes of the commit id can be cut off without splitting a
/// character (always so for hexadecimal ids).
pub open spec fn sha_cuttable(sha: Seq<char>) -> bool {
    cut_bytes(sha, 7, 0, 0) != -2
}


/// The field separator of the log format.
pub open spec fn field_sep() -> char {
    '\u{1f}'
}

/// The record separator of the log format.
pub open spec fn record_sep() -> char {
    '\u{1e}'
}

/// A commit as plain values: id, short id, author name, e-mail and date,
/// committer name, e-mail and date, title, body.
pub type CommitView = (Seq<char>, Seq<char>, Seq<char>, Seq<char>, Seq<char>, Seq<char>, Seq<char>, Seq<char>, Seq<char>, Option<Seq<char>>);

/// A commit (without its line counts) as plain values.
pub open spec fn commit_view(c: LocalCommit) -> CommitView {
    (c.sha@, c.short_sha@, c.author_name@, c.author_email@, c.authored_date@, c.committer_name@, c.committer_email@, c.committed_date@, c.title@, match c.body {
        Some(b) => Some(b@),
        None => None,
    })
}

/// The fields of one log record (leading line breaks dropped).
pub open spec fn record_fields(rec: Seq<char>) -> Seq<Seq<char>> {
    split_on(strip_leading_nl(rec), field_sep())
}

/// The commit one log record describes: none for an empty record or one
/// with fewer than 8 fields; the id trimmed; with `include_body`, the
/// fields after the title joined back and trimmed (none when empty).
pub open spec fn record_commit(rec: Seq<char>, include_body: bool) -> Option<CommitView> {
    let r = strip_leading_nl(rec);
    let parts = split_on(r, field_sep());
    if r.len() == 0 || parts.len() < 8 {
        None
    } else {
        let sha = trim_seq(parts[0]);
        let body = if include_body {
            let b = trim_seq(join_sep(parts.skip(8), field_sep()));
            if b.len() == 0 {
                None
            } else {
                Some(b)
            }
        } else {
            None
        };
        Some((sha, short_sha_spec(sha), parts[1], parts[2], parts[3], parts[4], parts[5], parts[6], parts[7], body))
    }
}

/// A record is read in the order of the `--pretty` format
/// `%H %an %ae %aI %cn %ce %cI %s [%b]`: field 0 is the commit id (trimmed),
/// 1 the author's name, 2 the author's e-mail, 3 the author date, 4 the
/// committer's name, 5 the committer's e-mail, 6 the commit date and 7 the
/// title; a record with fewer than 8 fields, or nothing but line breaks,
/// gives no commit.
pub proof fn lemma_record_field_order(rec: Seq<char>, include_body: bool)
    ensures
        ({
            let fs = split_on(strip_leading_nl(rec), '\u{1f}');
            match record_commit(rec, include_body) {
                Some(c) => {
                    &&& fs.len() >= 8
                    &&& c.0 == trim_seq(fs[0])
                    &&& c.2 == fs[1]
                    &&& c.3 == fs[2]
                    &&& c.4 == fs[3]
                    &&& c.5 == fs[4]
                    &&& c.6 == fs[5]
                    &&& c.7 == fs[6]
                    &&& c.8 == fs[7]
                },
                None => fs.len() < 8 || strip_leading_nl(rec).len() == 0,
            }
        }),
{
}

/// Every record's id can be shortened.
pub open spec fn log_ids_cuttable(out: Seq<char>) -> bool {
    let recs = split_on(out, record_sep());
    forall|k: int| 0 <= k < recs.len() ==> {
        let fs = #[trigger] record_fields(recs[k]);
        fs.len() >= 8 ==> sha_cuttable(trim_seq(fs[0]))
    }
}

/// Whether one log record's commit id can be cut at byte 7.
fn record_id_cuttable(rec: &str) -> (r: bool)
    ensures
        r == (record_fields(rec@).len() >= 8 ==> sha_cuttable(trim_seq(record_fields(rec@)[0]))),
{
    let rv = strip_leading_nl_exec(&chars_of(rec));
    let r = string_of(&rv);
    let parts = split_char(r.as_str(), '\u{1f}');
    if parts.len() < 8 {
        return true;
    }
    assert(strs(parts)[0] == parts@[0]@);
    let shav = trim_chars(&chars_of(parts[0].as_str()));
    cut_bytes_exec(&shav, 7) != -2
}

/// Whether every record's commit id in `git log` output can be cut at byte
/// 7, which reading the output needs (git prints hexadecimal ids, so this
/// holds for its output).
pub fn log_ids_ready(out: &str) -> (r: bool)
    ensures
        r == log_ids_cuttable(out@),
{
    let recs = split_char(out, '\u{1e}');
    let ghost rs = strs(recs);
    let mut i: usize = 0;
    while i < recs.len()
        invariant
            i <= recs.len(),
            rs == strs(recs),
            rs == split_on(out@, record_sep()),
            forall|k: int| 0 <= k < i ==> {
                let fs = #[trigger] record_fields(rs[k]);
                fs.len() >= 8 ==> sha_cuttable(trim_seq(fs[0]))
            },
        decreases recs.len() - i,
    {
        assert(rs[i as int] == recs@[i as int]@);
        if !record_id_cuttable(recs[i].as_str()) {
            assert(!({
                let fs = record_fields(rs[i as int]);
                fs.len() >= 8 ==> sha_cuttable(trim_seq(fs[0]))
            }));
            return false;
        }
        i = i + 1;
    }
    true
}

/// The commits of `git log` output, in output order.
pub open spec fn log_commits(recs: Seq<Seq<char>>, include_body: bool) -> Seq<CommitView>
    decreases recs.len(),
{
    if recs.len() == 0 {
        Seq::empty()
    } else {
        log_commits(recs.drop_last(), include_body) + match record_commit(recs.last(), include_body) {
            Some(c) => seq![c],
            None => Seq::empty(),
        }
    }
}

/// Reads one log record.
pub fn parse_log_record(rec: &str, include_body: bool) -> (r: Option<LocalCommit>)
    requires
        record_fields(rec@).len() >= 8 ==> sha_cuttable(trim_seq(record_fields(rec@)[0])),
    ensures
        match r {
            Some(c) => record_commit(rec@, include_body) == Some(commit_view(c)) && c.stat is None,
            None => record_commit(rec@, include_body).is_none(),
        },
{
    let rv = strip_leading_nl_exec(&chars_of(rec));
    if rv.len() == 0 {
        return None;
    }
    let r = string_of(&rv);
    let parts = split_char(r.as_str(), '\u{1f}');
    if parts.len() < 8 {
        return None;
    }
    let shav = trim_chars(&chars_of(parts[0].as_str()));
    let k = cut_bytes_exec(&shav, 7);
    proof {
        lemma_cut_bounds(shav@, 7, 0, 0);
    }
    let short = if k >= 0 && (k as usize) < shav.len() {
        string_of(&slice_chars(&shav, 0, k as usize))
    } else {
        string_of(&shav)
    };
    assert(k >= 0 && (k as usize) < shav.len() ==> shav@.subrange(0, k as int) =~= shav@.take(k as int));
    let body = if include_body {
        let joined = join_from(&parts, 8, '\u{1f}');
        let b = trim_chars(&chars_of(joined.as_str()));
        if b.len() == 0 {
            None
        } else {
            Some(string_of(&b))
        }
    } else {
        None
    };
    Some(LocalCommit {
        sha: string_of(&shav),
        short_sha: short,
        author_name: parts[1].clone(),
        author_email: parts[2].clone(),
        authored_date: parts[3].clone(),
        committer_name: parts[4].clone(),
        committer_email: parts[5].clone(),
        committed_date: parts[6].clone(),
        title: parts[7].clone(),
        body,
        stat: None,
    })
}

/// Reads `git log` output written with the record and field separators.
pub fn parse_git_log(out: &str, include_body: bool) -> (r: Vec<LocalCommit>)
    requires
        log_ids_cuttable(out@),
    ensures
        r@.map_values(|c: LocalCommit| commit_view(c)) == log_commits(split_on(out@, record_sep()), include_body),
        forall|k: int| 0 <= k < r.len() ==> (#[trigger] r@[k]).stat is None,
{
    let recs = split_char(out, '\u{1e}');
    let ghost rs = strs(recs);
    let mut res: Vec<LocalCommit> = Vec::new();
    let mut i: usize = 0;
    assert(rs.take(0) =~= Seq::<Seq<char>>::empty());
    while i < recs.len()
        invariant
            i <= recs.len(),
            rs == strs(recs),
            rs == split_on(out@, record_sep()),
            log_ids_cuttable(out@),
            res@.map_values(|c: LocalCommit| commit_view(c)) == log_commits(rs.take(i as int), include_body),
            forall|k: int| 0 <= k < res.len() ==> (#[trigger] res@[k]).stat is None,
        decreases recs.len() - i,
    {
        assert(rs.take(i + 1).drop_last() =~= rs.take(i as int));
        assert(rs.take(i + 1).last() == recs@[i as int]@);
        assert(rs[i as int] == recs@[i as int]@);
        let ghost fs = record_fields(rs[i as int]);
        let ghost before = res@.map_values(|c: LocalCommit| commit_view(c));
        match parse_log_record(recs[i].as_str(), include_body) {
            Some(c) => {
                let ghost cv = commit_view(c);
                res.push(c);
                assert(res@.map_values(|c: LocalCommit| commit_view(c)) =~= before + seq![cv]);
            },
            None => {
                assert(res@.map_values(|c: LocalCommit| commit_view(c)) =~= before + Seq::empty());
            },
        }
        i = i + 1;
    }
    assert(rs.take(recs.len() as int) =~= rs);
    res
}


/// The first position at or after `from` where `c` occurs.
pub open spec fn index_of(s: Seq<char>, c: char, from: int) -> Option<int>
    decreases s.len() - from,
{
    if from < 0 || from >= s.len() {
        None
    } else if s[from] == c {
        Some(from)
    } else {
        index_of(s, c, from + 1)
    }
}

pub(crate) fn index_of_exec(v: &Vec<char>, c: char, from: usize) -> (r: Option<usize>)
    requires
        from <= v.len(),
    ensures
        match r {
            Some(i) => index_of(v@, c, from as int) == Some(i as int) && from <= i < v.len(),
            None => index_of(v@, c, from as int).is_none(),
        },
{
    let mut i = from;
    while i < v.len()
        invariant
            from <= i <= v.len(),
            index_of(v@, c, from as int) == index_of(v@, c, i as int),
        decreases v.len() - i,
    {
        if v[i] == c {
            return Some(i);
        }
        i = i + 1;
    }
    None
}

/// A file line of `git show --numstat`: trimmed, split at its first two
/// tabs into added, deleted and path; a line without a path is none. `-`
/// for both counts marks a binary file (counted as 0); an unreadable count
/// is 0.
pub open spec fn numstat_line(line: Seq<char>) -> Option<(Seq<char>, nat, nat, bool)> {
    let t = trim_seq(line);
    match index_of(t, '\t', 0) {
        None => None,
        Some(i) => match index_of(t, '\t', i + 1) {
            None => None,
            Some(j) => {
                let p0 = t.subrange(0, i);
                let p1 = t.subrange(i + 1, j);
                let path = t.subrange(j + 1, t.len() as int);
                if path.len() == 0 {
                    None
                } else {
                    let binary = p0 == "-"@ && p1 == "-"@;
                    let ins = if binary {
                        0
                    } else {
                        match parse_usize_spec(p0) {
                            Some(n) => n,
                            None => 0,
                        }
                    };
                    let del = if binary {
                        0
                    } else {
                        match parse_usize_spec(p1) {
                            Some(n) => n,
                            None => 0,
                        }
                    };
                    Some((path, ins, del, binary))
                }
            },
        },
    }
}

/// The file entries of the first `n` lines.
pub open spec fn numstat_files(lines: Seq<Seq<char>>, n: int) -> Seq<(Seq<char>, nat, nat, bool)>
    decreases n,
{
    if n <= 0 {
        Seq::empty()
    } else {
        numstat_files(lines, n - 1) + match numstat_line(lines[n - 1]) {
            Some(f) => seq![f],
            None => Seq::empty(),
        }
    }
}

proof fn lemma_index_of_first(s: Seq<char>, c: char, from: int, k: int)
    requires
        0 <= from <= k < s.len(),
        s[k] == c,
        forall|m: int| from <= m < k ==> s[m] != c,
    ensures
        index_of(s, c, from) == Some(k),
    decreases k - from,
{
    if from < k {
        lemma_index_of_first(s, c, from + 1, k);
    }
}

/// A `git show --numstat` line `added<TAB>deleted<TAB>path` gives the file
/// `path` with `added` inserted and `deleted` deleted lines (in that order),
/// read as decimal numbers; `-<TAB>-<TAB>path` gives a binary file with no
/// lines counted.
pub proof fn lemma_numstat_line_fields(added: Seq<char>, deleted: Seq<char>, path: Seq<char>)
    requires
        added.len() > 0 && all_digits(added) && digits_value(added) <= usize::MAX,
        deleted.len() > 0 && all_digits(deleted) && digits_value(deleted) <= usize::MAX,
        path.len() > 0,
        !is_ws(path.last()),
    ensures
        numstat_line(added + seq!['\t'] + deleted + seq!['\t'] + path) == Some(
            (path, digits_value(added), digits_value(deleted), false),
        ),
        numstat_line(seq!['-', '\t', '-', '\t'] + path) == Some((path, 0nat, 0nat, true)),
{
    let line = added + seq!['\t'] + deleted + seq!['\t'] + path;
    let i = added.len() as int;
    let j = i + 1 + deleted.len();
    assert(!is_ws(line[0])) by {
        assert(line[0] == added[0]);
        assert(is_digit(added[0]));
    }
    assert(line.last() == path.last());
    assert(trim_start_seq(line) == line);
    assert(trim_end_seq(line) == line);
    assert forall|m: int| 0 <= m < i implies line[m] != '\t' by {
        assert(line[m] == added[m]);
        assert(is_digit(added[m]));
    }
    assert(line[i] == '\t');
    lemma_index_of_first(line, '\t', 0, i);
    assert forall|m: int| i + 1 <= m < j implies line[m] != '\t' by {
        assert(line[m] == deleted[m - i - 1]);
        assert(is_digit(deleted[m - i - 1]));
    }
    assert(line[j] == '\t');
    lemma_index_of_first(line, '\t', i + 1, j);
    assert(line.subrange(0, i) =~= added);
    assert(line.subrange(i + 1, j) =~= deleted);
    assert(line.subrange(j + 1, line.len() as int) =~= path);
    reveal_strlit("-");
    assert(added != "-"@) by {
        assert(is_digit(added[0]));
    }
    let b = seq!['-', '\t', '-', '\t'] + path;
    assert(!is_ws(b[0]));
    assert(b.last() == path.last());
    assert(trim_start_seq(b) == b);
    assert(trim_end_seq(b) == b);
    lemma_index_of_first(b, '\t', 0, 1);
    lemma_index_of_first(b, '\t', 2, 3);
    assert(b.subrange(0, 1) =~= "-"@);
    assert(b.subrange(2, 3) =~= "-"@);
    assert(b.subrange(4, b.len() as int) =~= path);
}

/// The files of numstat output come one per readable line, in line order:
/// a line added at the end adds its file after all the others.
pub proof fn lemma_numstat_files_in_order(lines: Seq<Seq<char>>, line: Seq<char>)
    ensures
        numstat_files(lines.push(line), lines.len() as int + 1) == numstat_files(lines, lines.len() as int) + match numstat_line(line) {
            Some(f) => seq![f],
            None => Seq::empty(),
        },
{
    lemma_numstat_files_prefix_same(lines, line, lines.len() as int);
}

proof fn lemma_numstat_files_prefix_same(lines: Seq<Seq<char>>, line: Seq<char>, n: int)
    requires
        0 <= n <= lines.len(),
    ensures
        numstat_files(lines.push(line), n) == numstat_files(lines, n),
    decreases n,
{
    if n > 0 {
        lemma_numstat_files_prefix_same(lines, line, n - 1);
        assert(lines.push(line)[n - 1] == lines[n - 1]);
    }
}

/// Total added (`which` false) or deleted lines of file entries.
pub open spec fn numstat_total(fs: Seq<(Seq<char>, nat, nat, bool)>, deleted: bool) -> nat
    decreases fs.len(),
{
    if fs.len() == 0 {
        0
    } else {
        numstat_total(fs.drop_last(), deleted) + if deleted {
            fs.last().2
        } else {
            fs.last().1
        }
    }
}

/// The file entries of `git show --numstat` output.
pub open spec fn numstat_entries(out: Seq<char>) -> Seq<(Seq<char>, nat, nat, bool)> {
    let lines = split_on(out, '\n');
    numstat_files(lines, lines.len() as int)
}

/// A file entry as plain values.
pub open spec fn stat_file_view(f: CommitStatFile) -> (Seq<char>, nat, nat, bool) {
    (f.path@, f.insertions as nat, f.deletions as nat, f.binary == Some(true))
}

proof fn lemma_total_prefix(fs: Seq<(Seq<char>, nat, nat, bool)>, k: int, deleted: bool)
    requires
        0 <= k <= fs.len(),
    ensures
        numstat_total(fs.take(k), deleted) <= numstat_total(fs, deleted),
    decreases fs.len() - k,
{
    if k < fs.len() {
        lemma_total_prefix(fs, k + 1, deleted);
        assert(fs.take(k + 1).drop_last() =~= fs.take(k));
    } else {
        assert(fs.take(k) =~= fs);
    }
}

/// The file entries of `git show --numstat` output.
pub fn numstat_file_list(out: &str) -> (r: Vec<CommitStatFile>)
    ensures
        r@.map_values(|f: CommitStatFile| stat_file_view(f)) == numstat_entries(out@),
        forall|k: int| 0 <= k < r.len() ==> (#[trigger] r@[k]).binary == Some(true) || r@[k].binary.is_none(),
{
    let lines = split_char(out, '\n');
    let ghost ls = strs(lines);
    let ghost all = numstat_entries(out@);
    let mut files: Vec<CommitStatFile> = Vec::new();
    let mut i: usize = 0;
    while i < lines.len()
        invariant
            i <= lines.len(),
            ls == strs(lines),
            ls == split_on(out@, '\n'),
            all == numstat_files(ls, ls.len() as int),
            files@.map_values(|f: CommitStatFile| stat_file_view(f)) == numstat_files(ls, i as int),
            forall|k: int| 0 <= k < files.len() ==> (#[trigger] files@[k]).binary == Some(true) || files@[k].binary.is_none(),
        decreases lines.len() - i,
    {
        let ghost before = files@.map_values(|f: CommitStatFile| stat_file_view(f));
        proof {
            lemma_files_prefix(ls, i as int + 1, ls.len() as int);
        }
        let t = trim_chars(&chars_of(lines[i].as_str()));
        assert(ls[i as int] == lines@[i as int]@);
        match index_of_exec(&t, '\t', 0) {
            None => {},
            Some(a) => match index_of_exec(&t, '\t', a + 1) {
                None => {},
                Some(b) => {
                    if b + 1 < t.len() {
                        let p0 = slice_chars(&t, 0, a);
                        let p1 = slice_chars(&t, a + 1, b);
                        let path = string_of(&slice_chars(&t, b + 1, t.len()));
                        let binary = p0.len() == 1 && p0[0] == '-' && p1.len() == 1 && p1[0] == '-';
                        proof {
                            reveal_strlit("-");
                            assert(binary == (p0@ == "-"@ && p1@ == "-"@)) by {
                                if p0@ == "-"@ {
                                    assert(p0@.len() == 1 && p0@[0] == '-');
                                }
                                if p1@ == "-"@ {
                                    assert(p1@.len() == 1 && p1@[0] == '-');
                                }
                                if p0.len() == 1 && p0[0] == '-' {
                                    assert(p0@ =~= "-"@);
                                }
                                if p1.len() == 1 && p1[0] == '-' {
                                    assert(p1@ =~= "-"@);
                                }
                            }
                        }
                        let ins: usize = if binary {
                            0
                        } else {
                            match parse_usize(&p0) {
                                Some(n) => n,
                                None => 0,
                            }
                        };
                        let del: usize = if binary {
                            0
                        } else {
                            match parse_usize(&p1) {
                                Some(n) => n,
                                None => 0,
                            }
                        };
                        let f = CommitStatFile {
                            path,
                            insertions: ins,
                            deletions: del,
                            binary: if binary {
                                Some(true)
                            } else {
                                None
                            },
                        };
                        let ghost fv = stat_file_view(f);
                        assert(numstat_line(ls[i as int]) == Some(fv));
                        assert(numstat_files(ls, i as int + 1) == numstat_files(ls, i as int) + seq![fv]);
                        assert((numstat_files(ls, i as int) + seq![fv]).drop_last() =~= numstat_files(ls, i as int));
                        files.push(f);
                        assert(files@.map_values(|f: CommitStatFile| stat_file_view(f)) =~= before + seq![fv]);
                    }
                },
            },
        }
        assert(numstat_files(ls, i as int + 1) =~= numstat_files(ls, i as int) + match numstat_line(ls[i as int]) {
            Some(f) => seq![f],
            None => Seq::empty(),
        });
        i = i + 1;
    }
    files
}


/// The inserted (or, with `deleted`, deleted) lines of the first `n`
/// entries, when that total fits in a `usize`.
fn numstat_sum(files: &Vec<CommitStatFile>, deleted: bool) -> (r: Option<usize>)
    ensures
        match r {
            Some(t) => t == numstat_total(files@.map_values(|f: CommitStatFile| stat_file_view(f)), deleted),
            None => numstat_total(files@.map_values(|f: CommitStatFile| stat_file_view(f)), deleted) > usize::MAX,
        },
{
    let ghost all = files@.map_values(|f: CommitStatFile| stat_file_view(f));
    let mut total: usize = 0;
    let mut i: usize = 0;
    while i < files.len()
        invariant
            i <= files.len(),
            all == files@.map_values(|f: CommitStatFile| stat_file_view(f)),
            total == numstat_total(all.take(i as int), deleted),
        decreases files.len() - i,
    {
        assert(all.take(i + 1).drop_last() =~= all.take(i as int));
        let n = if deleted {
            files[i].deletions
        } else {
            files[i].insertions
        };
        if total > usize::MAX - n {
            proof {
                lemma_total_prefix(all, i + 1, deleted);
            }
            return None;
        }
        total = total + n;
        i = i + 1;
    }
    assert(all.take(files.len() as int) =~= all);
    Some(total)
}

/// Whether the line totals of `git show --numstat` output fit in a `usize`
/// (adding them up overflows otherwise).
pub fn numstat_fits(out: &str) -> (r: bool)
    ensures
        r == (numstat_total(numstat_entries(out@), false) <= usize::MAX && numstat_total(
            numstat_entries(out@),
            true,
        ) <= usize::MAX),
{
    let files = numstat_file_list(out);
    numstat_sum(&files, false).is_some() && numstat_sum(&files, true).is_some()
}

/// The line counts of `git show --numstat` output: each file's inserted and
/// deleted lines (binary files count none), and the totals.
pub fn parse_numstat(out: &str) -> (r: CommitStat)
    requires
        numstat_total(numstat_entries(out@), false) <= usize::MAX,
        numstat_total(numstat_entries(out@), true) <= usize::MAX,
    ensures
        r.files@.map_values(|f: CommitStatFile| stat_file_view(f)) == numstat_entries(out@),
        forall|k: int| 0 <= k < r.files.len() ==> (#[trigger] r.files@[k]).binary == Some(true) || r.files@[k].binary.is_none(),
        r.files_changed == r.files.len(),
        r.insertions == numstat_total(numstat_entries(out@), false),
        r.deletions == numstat_total(numstat_entries(out@), true),
{
    let files = numstat_file_list(out);
    let ins = match numstat_sum(&files, false) {
        Some(t) => t,
        None => 0,
    };
    let del = match numstat_sum(&files, true) {
        Some(t) => t,
        None => 0,
    };
    CommitStat { files_changed: files.len(), insertions: ins, deletions: del, files }
}

proof fn lemma_files_prefix(ls: Seq<Seq<char>>, k: int, n: int)
    requires
        0 <= k <= n,
    ensures
        numstat_files(ls, n).take(numstat_files(ls, k).len() as int) == numstat_files(ls, k),
        numstat_files(ls, k).len() <= numstat_files(ls, n).len(),
    decreases n - k,
{
    if k < n {
        lemma_files_prefix(ls, k, n - 1);
        let a = numstat_files(ls, n - 1);
        let b = numstat_files(ls, n);
        assert(b.take(a.len() as int) =~= a);
        assert(b.take(numstat_files(ls, k).len() as int) =~= a.take(numstat_files(ls, k).len() as int));
    } else {
        assert(numstat_files(ls, n).take(numstat_files(ls, n).len() as int) =~= numstat_files(ls, n));
    }
}


/// What a commit query of one repository asks for.
pub struct GetCommitsOpts<'a> {
    pub authors: &'a [String],
    pub since: &'a str,
    pub until: &'a str,
    pub match_mode: MatchDimension,
    pub include_body: bool,
    pub include_stat: bool,
}

/// The `--pretty` format: id, author name, e-mail and date, committer name,
/// e-mail and date, title (and body), joined by the field separator, ended
/// by the record separator.
pub open spec fn log_format(include_body: bool) -> Seq<char> {
    let base = "%H\u{1f}%an\u{1f}%ae\u{1f}%aI\u{1f}%cn\u{1f}%ce\u{1f}%cI\u{1f}%s"@;
    (if include_body {
        base + "\u{1f}%b"@
    } else {
        base
    }).push('\u{1e}')
}

/// The identity filters: `--author=` or `--committer=` for each non-empty
/// name, none when any identity may match.
pub open spec fn identity_args(authors: Seq<Seq<char>>, mode: MatchDimension) -> Seq<Seq<char>>
    decreases authors.len(),
{
    if authors.len() == 0 || mode == MatchDimension::Any {
        Seq::empty()
    } else {
        let a = authors.last();
        identity_args(authors.drop_last(), mode) + if a.len() == 0 {
            Seq::empty()
        } else if mode == MatchDimension::Author {
            seq!["--author="@ + a]
        } else {
            seq!["--committer="@ + a]
        }
    }
}

/// The arguments of the `git log` call of a query.
pub open spec fn log_args_spec(authors: Seq<Seq<char>>, since: Seq<char>, until: Seq<char>, mode: MatchDimension, include_body: bool) -> Seq<Seq<char>> {
    seq!["log"@, "--all"@, "--no-merges"@, "--since="@ + since, "--until="@ + until, "--pretty=format:"@ + log_format(include_body)]
        + identity_args(authors, mode)
}

fn prefixed(p: &str, s: &str) -> (r: String)
    ensures
        r@ == p@ + s@,
{
    let mut out = owned(p);
    push_str(&mut out, s);
    out
}

/// Builds the `git log` arguments of a query.
pub fn log_args(opts: &GetCommitsOpts) -> (r: Vec<String>)
    ensures
        strs(r) == log_args_spec(opts.authors@.map_values(|a: String| a@), opts.since@, opts.until@, opts.match_mode, opts.include_body),
{
    let mut fmt = owned("%H\u{1f}%an\u{1f}%ae\u{1f}%aI\u{1f}%cn\u{1f}%ce\u{1f}%cI\u{1f}%s");
    if opts.include_body {
        push_str(&mut fmt, "\u{1f}%b");
    }
    push_char(&mut fmt, '\u{1e}');
    let mut args: Vec<String> = Vec::new();
    args.push(owned("log"));
    args.push(owned("--all"));
    args.push(owned("--no-merges"));
    args.push(prefixed("--since=", opts.since));
    args.push(prefixed("--until=", opts.until));
    args.push(prefixed("--pretty=format:", fmt.as_str()));
    let ghost names = opts.authors@.map_values(|a: String| a@);
    assert(strs(args) =~= seq!["log"@, "--all"@, "--no-merges"@, "--since="@ + opts.since@, "--until="@ + opts.until@, "--pretty=format:"@ + log_format(opts.include_body)]);
    let ghost head = strs(args);
    if opts.match_mode != MatchDimension::Any {
        let mut i: usize = 0;
        assert(names.take(0) =~= Seq::<Seq<char>>::empty());
        while i < opts.authors.len()
            invariant
                i <= opts.authors.len(),
                names == opts.authors@.map_values(|a: String| a@),
                opts.match_mode != MatchDimension::Any,
                strs(args) == head + identity_args(names.take(i as int), opts.match_mode),
            decreases opts.authors.len() - i,
        {
            let a = &opts.authors[i];
            assert(names.take(i + 1).drop_last() =~= names.take(i as int));
            assert(names.take(i + 1).last() == a@);
            let ghost before = strs(args);
            if !a.as_str().is_empty() {
                let arg = if opts.match_mode == MatchDimension::Author {
                    prefixed("--author=", a.as_str())
                } else {
                    prefixed("--committer=", a.as_str())
                };
                args.push(arg);
                assert(strs(args) =~= before.push(arg@));
            }
            assert(strs(args) =~= head + identity_args(names.take(i + 1), opts.match_mode));
            i = i + 1;
        }
        assert(names.take(opts.authors.len() as int) =~= names);
    } else {
        assert(identity_args(names, opts.match_mode) =~= Seq::empty());
        assert(strs(args) =~= head + Seq::<Seq<char>>::empty());
    }
    args
}

/// Some pattern occurs in one of the commit's identities, letter case
/// ignored.
pub open spec fn identity_matches(c: CommitView, patterns: Seq<Seq<char>>) -> bool {
    exists|k: int|
        0 <= k < patterns.len() && {
            let p = lowercase_of(#[trigger] patterns[k]);
            seq_contains(lowercase_of(c.3), p) || seq_contains(lowercase_of(c.2), p) || seq_contains(lowercase_of(c.6), p)
                || seq_contains(lowercase_of(c.5), p)
        }
}

/// The commits matching any of the patterns, in order.
pub open spec fn matching_commits(cs: Seq<LocalCommit>, patterns: Seq<Seq<char>>) -> Seq<LocalCommit>
    decreases cs.len(),
{
    if cs.len() == 0 {
        Seq::empty()
    } else {
        matching_commits(cs.drop_last(), patterns) + if identity_matches(commit_view(cs.last()), patterns) {
            seq![cs.last()]
        } else {
            Seq::empty()
        }
    }
}

fn commit_matches(c: &LocalCommit, lowered: &Vec<String>, patterns: Ghost<Seq<Seq<char>>>) -> (r: bool)
    requires
        lowered.len() == patterns@.len(),
        forall|k: int| 0 <= k < lowered.len() ==> (#[trigger] lowered@[k])@ == lowercase_of(patterns@[k]),
    ensures
        r == identity_matches(commit_view(*c), patterns@),
{
    let ae = to_lowercase(c.author_email.as_str());
    let an = to_lowercase(c.author_name.as_str());
    let ce = to_lowercase(c.committer_email.as_str());
    let cn = to_lowercase(c.committer_name.as_str());
    let mut k: usize = 0;
    while k < lowered.len()
        invariant
            k <= lowered.len(),
            lowered.len() == patterns@.len(),
            forall|j: int| 0 <= j < lowered.len() ==> (#[trigger] lowered@[j])@ == lowercase_of(patterns@[j]),
            ae@ == lowercase_of(c.author_email@),
            an@ == lowercase_of(c.author_name@),
            ce@ == lowercase_of(c.committer_email@),
            cn@ == lowercase_of(c.committer_name@),
            forall|j: int| 0 <= j < k ==> {
                let p = lowercase_of(#[trigger] patterns@[j]);
                !(seq_contains(lowercase_of(c.author_email@), p) || seq_contains(lowercase_of(c.author_name@), p) || seq_contains(
                    lowercase_of(c.committer_email@),
                    p,
                ) || seq_contains(lowercase_of(c.committer_name@), p))
            },
        decreases lowered.len() - k,
    {
        let p = lowered[k].as_str();
        if contains(ae.as_str(), p) || contains(an.as_str(), p) || contains(ce.as_str(), p) || contains(cn.as_str(), p) {
            assert(lowered@[k as int]@ == lowercase_of(patterns@[k as int]));
            return true;
        }
        k = k + 1;
    }
    false
}

/// With identities matched loosely (any identity), keeps the commits where
/// some requested name occurs in an author or committer name or e-mail,
/// letter case ignored; with no names, keeps every commit.
pub fn retain_matching(commits: Vec<LocalCommit>, authors: &Vec<String>) -> (r: Vec<LocalCommit>)
    ensures
        authors.len() == 0 ==> r@ == commits@,
        authors.len() > 0 ==> r@ == matching_commits(commits@, strs(*authors)),
{
    if authors.len() == 0 {
        return commits;
    }
    let ghost pats = strs(*authors);
    let mut lowered: Vec<String> = Vec::new();
    let mut j: usize = 0;
    while j < authors.len()
        invariant
            j <= authors.len(),
            pats == strs(*authors),
            lowered.len() == j,
            forall|k: int| 0 <= k < j ==> (#[trigger] lowered@[k])@ == lowercase_of(pats[k]),
        decreases authors.len() - j,
    {
        lowered.push(to_lowercase(authors[j].as_str()));
        j = j + 1;
    }
    let ghost all = commits@;
    let ghost mut taken: Seq<LocalCommit> = Seq::empty();
    let mut out: Vec<LocalCommit> = Vec::new();
    let mut rest = commits;
    while rest.len() > 0
        invariant
            lowered.len() == pats.len(),
            forall|k: int| 0 <= k < lowered.len() ==> (#[trigger] lowered@[k])@ == lowercase_of(pats[k]),
            taken + rest@ == all,
            out@ == matching_commits(taken, pats),
        decreases rest.len(),
    {
        let ghost rv = rest@;
        let c = rest.remove(0);
        assert(rest@ =~= rv.drop_first());
        assert(c == rv[0]);
        let keep = commit_matches(&c, &lowered, Ghost(pats));
        proof {
            assert(taken.push(c).drop_last() =~= taken);
            assert(taken.push(c).last() == c);
            assert(taken.push(c) + rv.drop_first() =~= taken + rv);
        }
        let ghost ov = out@;
        if keep {
            out.push(c);
            assert(out@ =~= ov + seq![c]);
        } else {
            assert(out@ =~= ov + Seq::empty());
        }
        proof {
            taken = taken.push(c);
        }
    }
    assert(taken =~= all);
    out
}


/// `out` is `input` reordered through `idx` (each position used once):
/// newest authored date first (dates compared as text), ties in input
/// order.
pub open spec fn newest_first(out: Seq<LocalCommit>, input: Seq<LocalCommit>, idx: Seq<int>) -> bool {
    &&& idx.len() == out.len() == input.len()
    &&& forall|k: int| 0 <= k < out.len() ==> 0 <= #[trigger] idx[k] < input.len() && out[k] == input[idx[k]]
    &&& forall|k1: int, k2: int| 0 <= k1 < k2 < out.len() ==> idx[k1] != idx[k2]
    &&& forall|k1: int, k2: int|
        0 <= k1 < k2 < out.len() ==> !str_lt((#[trigger] out[k1]).authored_date@, (#[trigger] out[k2]).authored_date@) && (
        out[k1].authored_date@ == out[k2].authored_date@ ==> idx[k1] < idx[k2])
}

/// Orders commits newest first (by authored date as text); equal dates keep
/// their order.
pub fn sort_newest_first(commits: Vec<LocalCommit>) -> (r: Vec<LocalCommit>)
    ensures
        exists|idx: Seq<int>| newest_first(r@, commits@, idx),
{
    let ghost input = commits@;
    let n = commits.len();
    assert(input.len() == n);
    let mut out: Vec<LocalCommit> = Vec::new();
    let ghost mut idx: Seq<int> = Seq::empty();
    let mut rest = commits;
    let mut i: usize = 0;
    while rest.len() > 0
        invariant
            input.len() == i + rest.len(),
            input.len() <= usize::MAX,
            forall|k: int| 0 <= k < rest.len() ==> rest@[k] == input[i + k],
            idx.len() == out.len() == i,
            forall|k: int| 0 <= k < out.len() ==> 0 <= #[trigger] idx[k] < i && out@[k] == input[idx[k]],
            forall|k1: int, k2: int| 0 <= k1 < k2 < out.len() ==> idx[k1] != idx[k2],
            forall|k1: int, k2: int|
                0 <= k1 < k2 < out.len() ==> !str_lt((#[trigger] out@[k1]).authored_date@, (#[trigger] out@[k2]).authored_date@) && (
                out@[k1].authored_date@ == out@[k2].authored_date@ ==> idx[k1] < idx[k2]),
        decreases rest.len(),
    {
        let ghost rv = rest@;
        let a = rest.remove(0);
        assert(a == input[i as int]);
        assert forall|k: int| 0 <= k < rest.len() implies rest@[k] == input[i + 1 + k] by {
            assert(rest@[k] == rv[k + 1]);
        }
        let ad = chars_of(a.authored_date.as_str());
        let mut p: usize = 0;
        while p < out.len() && !str_less(&chars_of(out[p].authored_date.as_str()), &ad)
            invariant
                p <= out.len(),
                ad@ == a.authored_date@,
                forall|k: int| 0 <= k < p ==> !str_lt((#[trigger] out@[k]).authored_date@, a.authored_date@),
            decreases out.len() - p,
        {
            p = p + 1;
        }
        let ghost old_out = out@;
        let ghost old_idx = idx;
        let ghost ad_s = a.authored_date@;
        out.insert(p, a);
        proof {
            idx = old_idx.insert(p as int, i as int);
            assert(out@ == old_out.insert(p as int, input[i as int]));
            assert forall|k: int| 0 <= k < out@.len() implies 0 <= #[trigger] idx[k] < i + 1 && out@[k] == input[idx[k]] by {
                if k < p {
                    assert(idx[k] == old_idx[k] && out@[k] == old_out[k]);
                } else if k > p {
                    assert(idx[k] == old_idx[k - 1] && out@[k] == old_out[k - 1]);
                }
            }
            assert forall|k1: int, k2: int| 0 <= k1 < k2 < out@.len() implies idx[k1] != idx[k2] by {
                if k1 != p && k2 != p {
                    let a1 = if k1 < p { k1 } else { k1 - 1 };
                    let a2 = if k2 < p { k2 } else { k2 - 1 };
                    assert(idx[k1] == old_idx[a1] && idx[k2] == old_idx[a2]);
                } else if k1 == p {
                    assert(idx[k2] == old_idx[k2 - 1]);
                } else {
                    assert(idx[k1] == old_idx[k1]);
                }
            }
            assert forall|k1: int, k2: int| 0 <= k1 < k2 < out@.len() implies !str_lt(
                (#[trigger] out@[k1]).authored_date@,
                (#[trigger] out@[k2]).authored_date@,
            ) && (out@[k1].authored_date@ == out@[k2].authored_date@ ==> idx[k1] < idx[k2]) by {
                if k2 < p {
                    assert(out@[k1] == old_out[k1] && out@[k2] == old_out[k2]);
                    assert(idx[k1] == old_idx[k1] && idx[k2] == old_idx[k2]);
                } else if k2 == p {
                    assert(out@[k1] == old_out[k1] && idx[k1] == old_idx[k1]);
                    assert(!str_lt(old_out[k1].authored_date@, ad_s));
                } else if k1 == p {
                    assert(out@[k2] == old_out[k2 - 1] && idx[k2] == old_idx[k2 - 1]);
                    let pd = old_out[p as int].authored_date@;
                    let qd = old_out[k2 - 1].authored_date@;
                    assert(str_lt(pd, ad_s));
                    lemma_str_lt_order(qd, pd, ad_s);
                    lemma_str_lt_order(pd, qd, ad_s);
                    lemma_str_lt_order(ad_s, qd, pd);
                    if k2 - 1 > p {
                        assert(!str_lt(pd, qd));
                    }
                } else if k1 < p {
                    assert(out@[k1] == old_out[k1] && out@[k2] == old_out[k2 - 1]);
                    assert(idx[k1] == old_idx[k1] && idx[k2] == old_idx[k2 - 1]);
                } else {
                    assert(out@[k1] == old_out[k1 - 1] && out@[k2] == old_out[k2 - 1]);
                    assert(idx[k1] == old_idx[k1 - 1] && idx[k2] == old_idx[k2 - 1]);
                }
            }
        }
        i = i + 1;
    }
    assert(newest_first(out@, input, idx));
    out
}


/// The date a repository is ordered by: that of its first commit.
pub open spec fn repo_key(r: RepoCommits) -> Seq<char> {
    if r.commits.len() > 0 {
        r.commits@[0].authored_date@
    } else {
        Seq::empty()
    }
}

/// The repositories that have commits, in order.
pub open spec fn with_commits(rs: Seq<RepoCommits>) -> Seq<RepoCommits>
    decreases rs.len(),
{
    if rs.len() == 0 {
        Seq::empty()
    } else {
        with_commits(rs.drop_last()) + if rs.last().commits.len() > 0 {
            seq![rs.last()]
        } else {
            Seq::empty()
        }
    }
}

/// Keeps the repositories that have commits, each with its commits newest
/// first.
#[verifier::spinoff_prover]
#[verifier::rlimit(30)]
pub fn repos_with_sorted_commits(results: Vec<RepoCommits>) -> (r: Vec<RepoCommits>)
    ensures
        r.len() == with_commits(results@).len(),
        forall|k: int| 0 <= k < r.len() ==> {
            let src = #[trigger] with_commits(results@)[k];
            &&& r@[k].repo_path == src.repo_path
            &&& exists|idx: Seq<int>| newest_first(r@[k].commits@, src.commits@, idx)
        },
{
    let ghost input = results@;
    let n = results.len();
    let ghost mut seen: Seq<RepoCommits> = Seq::empty();
    let mut out: Vec<RepoCommits> = Vec::new();
    let mut rest = results;
    while rest.len() > 0
        invariant
            seen + rest@ == input,
            out.len() == with_commits(seen).len(),
            forall|k: int| 0 <= k < out.len() ==> {
                let src = #[trigger] with_commits(seen)[k];
                &&& out@[k].repo_path == src.repo_path
                &&& exists|idx: Seq<int>| newest_first(out@[k].commits@, src.commits@, idx)
            },
        decreases rest.len(),
    {
        let ghost rv = rest@;
        let rc = rest.remove(0);
        assert(rest@ =~= rv.drop_first());
        assert(rc == rv[0]);
        proof {
            assert(seen.push(rc).drop_last() =~= seen);
            assert(seen.push(rc).last() == rc);
            assert(seen.push(rc) + rv.drop_first() =~= seen + rv);
        }
        let ghost before = with_commits(seen);
        let ghost src = rc;
        if rc.commits.len() > 0 {
            let ghost old_out = out@;
            let RepoCommits { repo_path, commits } = rc;
            let sorted = sort_newest_first(commits);
            assert(exists|idx: Seq<int>| newest_first(sorted@, src.commits@, idx));
            let ghost sorted_v = sorted@;
            out.push(RepoCommits { repo_path, commits: sorted });
            assert(out@[out.len() - 1].commits@ == sorted_v);
            assert(out@[out.len() - 1].repo_path == src.repo_path);
            assert(with_commits(seen.push(src)) == before + seq![src]);
            assert forall|k: int| 0 <= k < out.len() implies {
                let s2 = #[trigger] with_commits(seen.push(src))[k];
                &&& out@[k].repo_path == s2.repo_path
                &&& exists|idx: Seq<int>| newest_first(out@[k].commits@, s2.commits@, idx)
            } by {
                if k < out.len() - 1 {
                    assert(with_commits(seen.push(src))[k] == before[k]);
                    assert(out@[k] == old_out[k]);
                    let s1 = with_commits(seen)[k];
                    assert(old_out[k].repo_path == s1.repo_path);
                } else {
                    assert(with_commits(seen.push(src))[k] == src);
                    assert(out@[k].commits@ == sorted_v);
                    assert(exists|idx: Seq<int>| newest_first(out@[k].commits@, src.commits@, idx));
                }
            }
        } else {
            assert(with_commits(seen.push(src)) =~= before + Seq::empty());
            assert forall|k: int| 0 <= k < out.len() implies {
                let s2 = #[trigger] with_commits(seen.push(src))[k];
                &&& out@[k].repo_path == s2.repo_path
                &&& exists|idx: Seq<int>| newest_first(out@[k].commits@, s2.commits@, idx)
            } by {
                assert(with_commits(seen.push(src))[k] == before[k]);
                let s1 = with_commits(seen)[k];
                assert(out@[k].repo_path == s1.repo_path);
            }
        }
        proof {
            seen = seen.push(src);
        }
    }
    assert(seen =~= input);
    out
}

/// `out` is `input` reordered through `idx`: the repository with the newest
/// first commit first, ties in input order.
pub open spec fn repos_newest_first(out: Seq<RepoCommits>, input: Seq<RepoCommits>, idx: Seq<int>) -> bool {
    &&& idx.len() == out.len() == input.len()
    &&& forall|k: int| 0 <= k < out.len() ==> 0 <= #[trigger] idx[k] < input.len() && out[k] == input[idx[k]]
    &&& forall|k1: int, k2: int| 0 <= k1 < k2 < out.len() ==> idx[k1] != idx[k2]
    &&& forall|k1: int, k2: int|
        0 <= k1 < k2 < out.len() ==> !str_lt(repo_key(#[trigger] out[k1]), repo_key(#[trigger] out[k2])) && (repo_key(out[k1])
            == repo_key(out[k2]) ==> idx[k1] < idx[k2])
}

fn repo_key_exec(r: &RepoCommits) -> (k: Vec<char>)
    ensures
        k@ == repo_key(*r),
{
    if r.commits.len() > 0 {
        chars_of(r.commits[0].authored_date.as_str())
    } else {
        Vec::new()
    }
}

/// Orders repositories by their first commit's date, newest first; equal
/// dates keep their order.
pub fn sort_repos_newest_first(repos: Vec<RepoCommits>) -> (r: Vec<RepoCommits>)
    ensures
        exists|idx: Seq<int>| repos_newest_first(r@, repos@, idx),
{
    let ghost input = repos@;
    let n = repos.len();
    assert(input.len() == n);
    let mut out: Vec<RepoCommits> = Vec::new();
    let ghost mut idx: Seq<int> = Seq::empty();
    let mut rest = repos;
    let mut i: usize = 0;
    while rest.len() > 0
        invariant
            input.len() == i + rest.len(),
            input.len() <= usize::MAX,
            forall|k: int| 0 <= k < rest.len() ==> rest@[k] == input[i + k],
            idx.len() == out.len() == i,
            forall|k: int| 0 <= k < out.len() ==> 0 <= #[trigger] idx[k] < i && out@[k] == input[idx[k]],
            forall|k1: int, k2: int| 0 <= k1 < k2 < out.len() ==> idx[k1] != idx[k2],
            forall|k1: int, k2: int|
                0 <= k1 < k2 < out.len() ==> !str_lt(repo_key(#[trigger] out@[k1]), repo_key(#[trigger] out@[k2])) && (repo_key(
                    out@[k1],
                ) == repo_key(out@[k2]) ==> idx[k1] < idx[k2]),
        decreases rest.len(),
    {
        let ghost rv = rest@;
        let a = rest.remove(0);
        assert(a == input[i as int]);
        assert forall|k: int| 0 <= k < rest.len() implies rest@[k] == input[i + 1 + k] by {
            assert(rest@[k] == rv[k + 1]);
        }
        let ak = repo_key_exec(&a);
        let mut p: usize = 0;
        while p < out.len() && !str_less(&repo_key_exec(&out[p]), &ak)
            invariant
                p <= out.len(),
                ak@ == repo_key(a),
                forall|k: int| 0 <= k < p ==> !str_lt(repo_key(#[trigger] out@[k]), repo_key(a)),
            decreases out.len() - p,
        {
            p = p + 1;
        }
        let ghost old_out = out@;
        let ghost old_idx = idx;
        let ghost a_key = repo_key(a);
        out.insert(p, a);
        proof {
            idx = old_idx.insert(p as int, i as int);
            assert(out@ == old_out.insert(p as int, input[i as int]));
            assert forall|k: int| 0 <= k < out@.len() implies 0 <= #[trigger] idx[k] < i + 1 && out@[k] == input[idx[k]] by {
                if k < p {
                    assert(idx[k] == old_idx[k] && out@[k] == old_out[k]);
                } else if k > p {
                    assert(idx[k] == old_idx[k - 1] && out@[k] == old_out[k - 1]);
                }
            }
            assert forall|k1: int, k2: int| 0 <= k1 < k2 < out@.len() implies idx[k1] != idx[k2] by {
                if k1 != p && k2 != p {
                    let a1 = if k1 < p { k1 } else { k1 - 1 };
                    let a2 = if k2 < p { k2 } else { k2 - 1 };
                    assert(idx[k1] == old_idx[a1] && idx[k2] == old_idx[a2]);
                } else if k1 == p {
                    assert(idx[k2] == old_idx[k2 - 1]);
                } else {
                    assert(idx[k1] == old_idx[k1]);
                }
            }
            assert forall|k1: int, k2: int| 0 <= k1 < k2 < out@.len() implies !str_lt(
                repo_key(#[trigger] out@[k1]),
                repo_key(#[trigger] out@[k2]),
            ) && (repo_key(out@[k1]) == repo_key(out@[k2]) ==> idx[k1] < idx[k2]) by {
                if k2 < p {
                    assert(out@[k1] == old_out[k1] && out@[k2] == old_out[k2]);
                    assert(idx[k1] == old_idx[k1] && idx[k2] == old_idx[k2]);
                } else if k2 == p {
                    assert(out@[k1] == old_out[k1] && idx[k1] == old_idx[k1]);
                    assert(!str_lt(repo_key(old_out[k1]), a_key));
                } else if k1 == p {
                    assert(out@[k2] == old_out[k2 - 1] && idx[k2] == old_idx[k2 - 1]);
                    let pd = repo_key(old_out[p as int]);
                    let qd = repo_key(old_out[k2 - 1]);
                    assert(str_lt(pd, a_key));
                    lemma_str_lt_order(qd, pd, a_key);
                    lemma_str_lt_order(pd, qd, a_key);
                    lemma_str_lt_order(a_key, qd, pd);
                    if k2 - 1 > p {
                        assert(!str_lt(pd, qd));
                    }
                } else if k1 < p {
                    assert(out@[k1] == old_out[k1] && out@[k2] == old_out[k2 - 1]);
                    assert(idx[k1] == old_idx[k1] && idx[k2] == old_idx[k2 - 1]);
                } else {
                    assert(out@[k1] == old_out[k1 - 1] && out@[k2] == old_out[k2 - 1]);
                    assert(idx[k1] == old_idx[k1 - 1] && idx[k2] == old_idx[k2 - 1]);
                }
            }
        }
        i = i + 1;
    }
    assert(repos_newest_first(out@, input, idx));
    out
}

/// The number of commits over all repositories.
pub open spec fn commit_count(rs: Seq<RepoCommits>) -> int
    decreases rs.len(),
{
    if rs.len() == 0 {
        0
    } else {
        commit_count(rs.drop_last()) + rs.last().commits.len()
    }
}

/// Counts the commits of the repositories.
pub fn total_commits(rs: &Vec<RepoCommits>) -> (r: usize)
    requires
        commit_count(rs@) <= usize::MAX,
    ensures
        r == commit_count(rs@),
{
    let mut total: usize = 0;
    let mut i: usize = 0;
    while i < rs.len()
        invariant
            i <= rs.len(),
            total == commit_count(rs@.take(i as int)),
            commit_count(rs@) <= usize::MAX,
        decreases rs.len() - i,
    {
        assert(rs@.take(i + 1).drop_last() =~= rs@.take(i as int));
        proof {
            lemma_count_prefix(rs@, i as int + 1);
        }
        total = total + rs[i].commits.len();
        i = i + 1;
    }
    assert(rs@.take(rs.len() as int) =~= rs@);
    total
}

proof fn lemma_count_prefix(rs: Seq<RepoCommits>, k: int)
    requires
        0 <= k <= rs.len(),
    ensures
        commit_count(rs.take(k)) <= commit_count(rs),
    decreases rs.len() - k,
{
    if k < rs.len() {
        lemma_count_prefix(rs, k + 1);
        assert(rs.take(k + 1).drop_last() =~= rs.take(k));
    } else {
        assert(rs.take(k) =~= rs);
    }
}

/// What a scan of the user's local commits asks for.
pub struct ListMyLocalCommitsInput<'a> {
    pub root_dirs: &'a [String],
    pub range: RangePreset,
    pub since: Option<&'a str>,
    pub until: Option<&'a str>,
    pub author: Option<&'a str>,
    pub match_mode: MatchDimension,
    pub include_body: bool,
    pub include_stat: bool,
    pub max_depth: usize,
}

/// What a scan of the user's local commits found.
pub struct ListMyLocalCommitsResult {
    pub range: DateRange,
    pub authors: Vec<String>,
    pub root_dirs: Vec<String>,
    pub repos: Vec<RepoCommits>,
    pub total_commits: usize,
    pub scanned_repos: usize,
    pub repos_with_commits: usize,
}

/// The error of a scan without code directories.
pub fn root_dirs_error(root_dirs: &[String]) -> (r: Option<String>)
    ensures
        root_dirs@.len() == 0 ==> (r matches Some(e) && e@ == "缺少 rootDir。请在 settings 里配置代码根目录"@),
        root_dirs@.len() > 0 ==> r is None,
{
    if root_dirs.len() == 0 {
        Some(owned("缺少 rootDir。请在 settings 里配置代码根目录"))
    } else {
        None
    }
}

/// The non-empty, trimmed names of a comma-separated list.
pub open spec fn name_list(pieces: Seq<Seq<char>>) -> Seq<Seq<char>>
    decreases pieces.len(),
{
    if pieces.len() == 0 {
        Seq::empty()
    } else {
        let t = trim_seq(pieces.last());
        name_list(pieces.drop_last()) + if t.len() > 0 {
            seq![t]
        } else {
            Seq::empty()
        }
    }
}

/// The identities named in a comma-separated list.
pub fn authors_from_list(a: &str) -> (r: Vec<String>)
    ensures
        strs(r) == name_list(split_on(a@, ',')),
{
    let pieces = split_char(a, ',');
    let ghost ps = strs(pieces);
    let mut out: Vec<String> = Vec::new();
    let mut i: usize = 0;
    assert(ps.take(0) =~= Seq::<Seq<char>>::empty());
    while i < pieces.len()
        invariant
            i <= pieces.len(),
            ps == strs(pieces),
            strs(out) == name_list(ps.take(i as int)),
        decreases pieces.len() - i,
    {
        assert(ps.take(i + 1).drop_last() =~= ps.take(i as int));
        assert(ps.take(i + 1).last() == pieces@[i as int]@);
        let t = string_of(&trim_chars(&chars_of(pieces[i].as_str())));
        let ghost before = strs(out);
        if !t.as_str().is_empty() {
            out.push(t);
            assert(strs(out) =~= before + seq![out@[out.len() - 1]@]);
        } else {
            assert(strs(out) =~= before + Seq::empty());
        }
        i = i + 1;
    }
    assert(ps.take(pieces.len() as int) =~= ps);
    out
}

/// The dates a scan covers: those given, else the preset range's.
pub fn scan_bounds(since: Option<&str>, until: Option<&str>, preset: &DateRange) -> (r: (String, String))
    ensures
        r.0@ == match since {
            Some(s) => s@,
            None => preset.since@,
        },
        r.1@ == match until {
            Some(u) => u@,
            None => preset.until@,
        },
{
    let a = match since {
        Some(s) => owned(s),
        None => preset.since.clone(),
    };
    let b = match until {
        Some(u) => owned(u),
        None => preset.until.clone(),
    };
    (a, b)
}


fn strip_trailing_exec(v: &Vec<char>, c: char) -> (r: Vec<char>)
    ensures
        r@ == strip_trailing(v@, c),
{
    let mut end = v.len();
    assert(v@.subrange(0, end as int) =~= v@);
    while end > 0 && v[end - 1] == c
        invariant
            end <= v.len(),
            strip_trailing(v@.subrange(0, end as int), c) == strip_trailing(v@, c),
        decreases end,
    {
        assert(v@.subrange(0, end as int).drop_last() =~= v@.subrange(0, end - 1));
        end = end - 1;
    }
    slice_chars(v, 0, end)
}

/// What `git show -s` meta output (id, author name, e-mail, date, title,
/// body, joined by the field separator) says, with the commit's line counts
/// and patch: the id falls back to the one asked for when empty; the body
/// is the fields after the title joined back and trimmed; the patch loses
/// its leading line breaks. Fewer than 5 fields is an error naming
/// `snippet`, the start of the meta output.
pub open spec fn diff_spec(meta_out: Seq<char>, sha: Seq<char>, patch_raw: Seq<char>, snippet: Seq<char>) -> Result<(Seq<char>, Seq<char>, Seq<char>, Seq<char>, Seq<char>, Seq<char>, Seq<char>), Seq<char>> {
    let parts = split_on(strip_trailing(meta_out, '\n'), field_sep());
    if parts.len() < 5 {
        Err("git show meta 输出格式异常: "@ + snippet)
    } else {
        let id = trim_seq(parts[0]);
        Ok((if id.len() == 0 { sha } else { id }, parts[1], parts[2], parts[3], parts[4], trim_seq(join_sep(parts.skip(5), field_sep())), strip_leading_nl(patch_raw)))
    }
}

/// Builds a commit's detail from `git show` outputs.
pub fn commit_diff_from(meta_out: &str, sha: &str, stat: CommitStat, patch_raw: &str, snippet: &str) -> (r: Result<CommitDiff, String>)
    ensures
        match r {
            Ok(d) => diff_spec(meta_out@, sha@, patch_raw@, snippet@) == Ok::<_, Seq<char>>((d.sha@, d.author_name@, d.author_email@, d.authored_date@, d.title@, d.body@, d.patch@)) && d.stat == stat,
            Err(e) => diff_spec(meta_out@, sha@, patch_raw@, snippet@) == Err::<(Seq<char>, Seq<char>, Seq<char>, Seq<char>, Seq<char>, Seq<char>, Seq<char>), Seq<char>>(e@),
        },
{
    let meta = string_of(&strip_trailing_exec(&chars_of(meta_out), '\n'));
    let parts = split_char(meta.as_str(), '\u{1f}');
    if parts.len() < 5 {
        let mut e = owned("git show meta 输出格式异常: ");
        push_str(&mut e, snippet);
        return Err(e);
    }
    let id = string_of(&trim_chars(&chars_of(parts[0].as_str())));
    let body = string_of(&trim_chars(&chars_of(join_from(&parts, 5, '\u{1f}').as_str())));
    let patch = string_of(&strip_leading_nl_exec(&chars_of(patch_raw)));
    Ok(CommitDiff {
        sha: if id.as_str().is_empty() {
            owned(sha)
        } else {
            id
        },
        author_name: parts[1].clone(),
        author_email: parts[2].clone(),
        authored_date: parts[3].clone(),
        title: parts[4].clone(),
        body,
        stat,
        patch,
    })
}


/// Directories a repository search does not enter: hidden ones and build,
/// dependency and editor folders.
pub open spec fn skipped_dir_spec(name: Seq<char>) -> bool {
    (name.len() > 0 && name[0] == '.') || seq![
        "node_modules"@, "dist"@, "build"@, "out"@, ".next"@, ".cache"@, ".idea"@, ".vscode"@, "target"@, "venv"@,
        ".venv"@, "__pycache__"@, ".gradle"@,
    ].contains(name)
}

/// Whether a repository search skips a directory.
pub fn skipped_dir(name: &str) -> (r: bool)
    ensures
        r == skipped_dir_spec(name@),
{
    let v = chars_of(name);
    if v.len() > 0 && v[0] == '.' {
        return true;
    }
    let names: Vec<&str> = vec![
        "node_modules", "dist", "build", "out", ".next", ".cache", ".idea", ".vscode", "target", "venv", ".venv",
        "__pycache__", ".gradle",
    ];
    let ghost list = seq![
        "node_modules"@, "dist"@, "build"@, "out"@, ".next"@, ".cache"@, ".idea"@, ".vscode"@, "target"@, "venv"@,
        ".venv"@, "__pycache__"@, ".gradle"@,
    ];
    assert(names@.map_values(|n: &str| n@) =~= list);
    assert(skipped_dir_spec(name@) == list.contains(name@));
    let mut i: usize = 0;
    while i < names.len()
        invariant
            i <= names.len(),
            names@.map_values(|n: &str| n@) == list,
            skipped_dir_spec(name@) == list.contains(name@),
            v@ == name@,
            forall|k: int| 0 <= k < i ==> list[k] != name@,
        decreases names.len() - i,
    {
        if crate::text::seq_eq(&chars_of(names[i]), &v) {
            assert(list[i as int] == name@);
            assert(list.contains(name@));
            return true;
        }
        i = i + 1;
    }
    assert(!list.contains(name@));
    false
}

/// The user's default identities: the e-mail, then the name unless it is
/// the same text.
pub fn default_identities(email: Option<String>, name: Option<String>) -> (r: Vec<String>)
    ensures
        strs(r) == match (email, name) {
            (Some(e), Some(n)) => if n@ == e@ { seq![e@] } else { seq![e@, n@] },
            (Some(e), None) => seq![e@],
            (None, Some(n)) => seq![n@],
            (None, None) => Seq::<Seq<char>>::empty(),
        },
{
    let mut out: Vec<String> = Vec::new();
    let ghost ev = match &email { Some(e) => Some(e@), None => None };
    let ghost nv = match &name { Some(n) => Some(n@), None => None };
    let e_copy = match &email {
        Some(e) => Some(e.clone()),
        None => None,
    };
    match email {
        Some(e) => out.push(e),
        None => {},
    }
    match name {
        Some(n) => {
            let same = match &e_copy {
                Some(e) => *e == n,
                None => false,
            };
            if !same {
                out.push(n);
            }
        },
        None => {},
    }
    proof {
        if ev.is_some() && nv.is_some() {
            assert(strs(out) =~= if nv.unwrap() == ev.unwrap() { seq![ev.unwrap()] } else { seq![ev.unwrap(), nv.unwrap()] });
        } else if ev.is_some() {
            assert(strs(out) =~= seq![ev.unwrap()]);
        } else if nv.is_some() {
            assert(strs(out) =~= seq![nv.unwrap()]);
        } else {
            assert(strs(out) =~= Seq::<Seq<char>>::empty());
        }
    }
    out
}

/// The days (counted like the caller's `today`) a range preset covers, as
/// a half-open interval: today, yesterday, this week (from Monday), last
/// week, the last 7 or 30 days (up to and including today), this month, or
/// everything since the `epoch` day. `weekday` counts from Monday as 0.
pub open spec fn preset_days_spec(preset: RangePreset, today: int, weekday: int, month_first: int, epoch: int) -> (int, int) {
    match preset {
        RangePreset::Today => (today, today + 1),
        RangePreset::Yesterday => (today - 1, today),
        RangePreset::ThisWeek => (today - weekday, today + 1),
        RangePreset::LastWeek => (today - weekday - 7, today - weekday),
        RangePreset::Last7Days => (today - 7, today + 1),
        RangePreset::Last30Days => (today - 30, today + 1),
        RangePreset::ThisMonth => (month_first, today + 1),
        RangePreset::All => (epoch, today + 1),
    }
}

/// The day interval of a range preset.
pub fn preset_days(preset: RangePreset, today: i32, weekday: u32, month_first: i32, epoch: i32) -> (r: (i64, i64))
    requires
        weekday < 7,
    ensures
        (r.0 as int, r.1 as int) == preset_days_spec(preset, today as int, weekday as int, month_first as int, epoch as int),
{
    let t = today as i64;
    let w = weekday as i64;
    match preset {
        RangePreset::Today => (t, t + 1),
        RangePreset::Yesterday => (t - 1, t),
        RangePreset::ThisWeek => (t - w, t + 1),
        RangePreset::LastWeek => (t - w - 7, t - w),
        RangePreset::Last7Days => (t - 7, t + 1),
        RangePreset::Last30Days => (t - 30, t + 1),
        RangePreset::ThisMonth => (month_first as i64, t + 1),
        RangePreset::All => (epoch as i64, t + 1),
    }
}

} // verus!
