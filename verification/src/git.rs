//! Local git commits: their data model, the presets a scan is asked for, the
//! clean-up of commit titles for reports, and which changed files count as
//! generated.

use vstd::prelude::*;
use crate::text::{
    chars_of, contains_chars, ends_with_chars, is_whitespace, is_ws, lowercase_of, seq_contains, seq_ends_with, seq_eq, seq_starts_with, slice_chars,
    starts_with_chars, string_of, to_lowercase, trailing_ws_start, trim_chars, trim_end_seq, trim_start_seq,
    trim_seq,
};

verus! {

/// A commit found in a local repository.
#[derive(Debug, Clone)]
pub struct LocalCommit {
    pub sha: String,
    pub short_sha: String,
    pub author_name: String,
    pub author_email: String,
    pub authored_date: String,
    pub committer_name: String,
    pub committer_email: String,
    pub committed_date: String,
    pub title: String,
    pub body: Option<String>,
    pub stat: Option<CommitStat>,
}

/// Line counts of a commit (`git show --numstat`).
#[derive(Debug, Clone)]
pub struct CommitStat {
    pub files_changed: usize,
    pub insertions: usize,
    pub deletions: usize,
    pub files: Vec<CommitStatFile>,
}

/// Line counts of one file in a commit.
#[derive(Debug, Clone)]
pub struct CommitStatFile {
    pub path: String,
    pub insertions: usize,
    pub deletions: usize,
    pub binary: Option<bool>,
}

/// The commits found in one repository.
#[derive(Debug, Clone)]
pub struct RepoCommits {
    pub repo_path: String,
    pub commits: Vec<LocalCommit>,
}

/// A date range with its display label.
#[derive(Debug, Clone)]
pub struct DateRange {
    pub since: String,
    pub until: String,
    pub label: String,
}

/// Which identity of a commit is compared with the user.
#[derive(Debug, Clone, Copy, PartialEq, Eq, Structural)]
pub enum MatchDimension {
    Author,
    Committer,
    Any,
}

impl MatchDimension {
    /// `committer` and `any` name those dimensions; anything else means author.
    pub fn parse(s: &str) -> (r: Self)
        ensures
            r == (if s@ == "committer"@ {
                MatchDimension::Committer
            } else if s@ == "any"@ {
                MatchDimension::Any
            } else {
                MatchDimension::Author
            }),
    {
        let v = chars_of(s);
        if seq_eq(&v, &chars_of("committer")) {
            MatchDimension::Committer
        } else if seq_eq(&v, &chars_of("any")) {
            MatchDimension::Any
        } else {
            MatchDimension::Author
        }
    }
}

/// The date ranges a commit scan can be asked for.
#[derive(Debug, Clone, Copy, PartialEq, Eq, Structural)]
pub enum RangePreset {
    Today,
    Yesterday,
    ThisWeek,
    LastWeek,
    Last7Days,
    Last30Days,
    ThisMonth,
    All,
}

/// The preset a name stands for; unknown names mean today.
pub open spec fn range_preset_spec(s: Seq<char>) -> RangePreset {
    if s == "yesterday"@ {
        RangePreset::Yesterday
    } else if s == "thisWeek"@ {
        RangePreset::ThisWeek
    } else if s == "lastWeek"@ {
        RangePreset::LastWeek
    } else if s == "last7days"@ {
        RangePreset::Last7Days
    } else if s == "last30days"@ {
        RangePreset::Last30Days
    } else if s == "thisMonth"@ {
        RangePreset::ThisMonth
    } else if s == "all"@ {
        RangePreset::All
    } else {
        RangePreset::Today
    }
}

impl RangePreset {
    /// Reads a preset name as the front end sends it.
    pub fn parse(s: &str) -> (r: Self)
        ensures
            r == range_preset_spec(s@),
    {
        let v = chars_of(s);
        if seq_eq(&v, &chars_of("yesterday")) {
            RangePreset::Yesterday
        } else if seq_eq(&v, &chars_of("thisWeek")) {
            RangePreset::ThisWeek
        } else if seq_eq(&v, &chars_of("lastWeek")) {
            RangePreset::LastWeek
        } else if seq_eq(&v, &chars_of("last7days")) {
            RangePreset::Last7Days
        } else if seq_eq(&v, &chars_of("last30days")) {
            RangePreset::Last30Days
        } else if seq_eq(&v, &chars_of("thisMonth")) {
            RangePreset::ThisMonth
        } else if seq_eq(&v, &chars_of("all")) {
            RangePreset::All
        } else {
            RangePreset::Today
        }
    }
}

/// A commit with its full message and patch.
#[derive(Debug, Clone)]
pub struct CommitDiff {
    pub sha: String,
    pub author_name: String,
    pub author_email: String,
    pub authored_date: String,
    pub title: String,
    pub body: String,
    pub stat: CommitStat,
    pub patch: String,
}

/// Ideographs and CJK punctuation, which count as text and not as decoration.
pub open spec fn is_cjk_spec(c: char) -> bool {
    let u = c as u32;
    (0x4E00 <= u <= 0x9FFF) || (0x3400 <= u <= 0x4DBF) || (0x3000 <= u <= 0x303F)
}

/// Whether `c` is a CJK ideograph or CJK punctuation.
pub fn is_cjk(c: char) -> (r: bool)
    ensures
        r == is_cjk_spec(c),
{
    let u = c as u32;
    (0x4E00 <= u && u <= 0x9FFF) || (0x3400 <= u && u <= 0x4DBF) || (0x3000 <= u && u <= 0x303F)
}

/// End of the decoration a title starts with: characters that are neither
/// ASCII nor CJK (emoji and the like), and white space after the first of them.
pub open spec fn emoji_end(s: Seq<char>, i: nat) -> nat
    decreases s.len() - i,
{
    if i < s.len() && ((is_ws(s[i as int]) && i > 0) || (!((s[i as int] as u32) < 128)
        && !is_cjk_spec(s[i as int]))) {
        emoji_end(s, i + 1)
    } else {
        i
    }
}

/// A title without its leading emoji.
pub open spec fn strip_emoji_spec(s: Seq<char>) -> Seq<char> {
    s.subrange(emoji_end(s, 0) as int, s.len() as int)
}

fn emoji_end_exec(v: &Vec<char>) -> (r: usize)
    ensures
        r == emoji_end(v@, 0),
        r <= v.len(),
{
    let mut i: usize = 0;
    while i < v.len() && ((is_whitespace(v[i]) && i > 0) || (!((v[i] as u32) < 128) && !is_cjk(
        v[i],
    )))
        invariant
            i <= v.len(),
            emoji_end(v@, i as nat) == emoji_end(v@, 0),
        decreases v.len() - i,
    {
        i = i + 1;
    }
    i
}

/// The title with leading emoji removed.
pub fn strip_leading_emoji(s: &Vec<char>) -> (r: Vec<char>)
    ensures
        r@ == strip_emoji_spec(s@),
{
    let e = emoji_end_exec(s);
    slice_chars(s, e, s.len())
}

/// A conventional-commit prefix `type(scope)!: ` at the start of a title
/// (type matched ignoring case; scope and `!` optional).
pub open spec fn cc_pattern() -> Seq<char> {
    "(?i)^(feat|fix|refactor|build|chore|docs|test|style|perf|ci|revert|wip)(?:\\([^)]+\\))?!?\\s*:\\s*"@
}

/// What `Regex::replace(text, "")` gives for `pattern` on `text`: the
/// first match removed.
pub uninterp spec fn regex_removed_first(pattern: Seq<char>, text: Seq<char>) -> Seq<char>;

/// `Regex::new(pattern)` and `replace(text, "")`. Only the
/// conventional-commit pattern is passed, and it compiles. The result is
/// named, not stated.
#[verifier::external_body]
fn regex_remove_first(pattern: &str, text: &str) -> (r: String)
    requires
        pattern@ == cc_pattern(),
    ensures
        r@ == regex_removed_first(pattern@, text@),
{
    let re = regex::Regex::new(pattern).unwrap();
    re.replace(text, "").to_string()
}

/// A title without its conventional-commit prefix.
pub open spec fn strip_cc_spec(s: Seq<char>) -> Seq<char> {
    regex_removed_first(cc_pattern(), s)
}

/// The title with its conventional-commit prefix removed.
pub fn strip_cc_prefix(v: &Vec<char>) -> (r: Vec<char>)
    ensures
        r@ == strip_cc_spec(v@),
{
    let text = string_of(v);
    let out = regex_remove_first(
        "(?i)^(feat|fix|refactor|build|chore|docs|test|style|perf|ci|revert|wip)(?:\\([^)]+\\))?!?\\s*:\\s*",
        text.as_str(),
    );
    chars_of(out.as_str())
}

/// One clean-up round: leading emoji, then a conventional-commit prefix.
pub open spec fn strip_once(s: Seq<char>) -> Seq<char> {
    strip_cc_spec(strip_emoji_spec(s))
}

/// A stripped title as reports show it: trimmed, and cut to `max_len`
/// characters with a trailing `…` when longer (white space before the `…`
/// dropped).
pub open spec fn shorten_spec(s: Seq<char>, max_len: nat) -> Seq<char> {
    let t = trim_seq(s);
    if t.len() > max_len {
        let keep: nat = if max_len > 0 {
            (max_len - 1) as nat
        } else {
            0
        };
        trim_end_seq(t.take(keep as int)).push('…')
    } else {
        t
    }
}

/// A commit title as reports show it: empty for an empty title; otherwise
/// three clean-up rounds (enough for `✨ feat: 🐛 fix: ...`), then trimmed
/// and shortened.
pub open spec fn clean_title_spec(title: Seq<char>, max_len: nat) -> Seq<char> {
    if title.len() == 0 {
        Seq::empty()
    } else {
        shorten_spec(strip_once(strip_once(strip_once(title))), max_len)
    }
}

/// Trims a title whose emoji and prefixes are already stripped and cuts it
/// to `max_len` characters.
pub fn shorten_title(s: &Vec<char>, max_len: usize) -> (r: String)
    ensures
        r@ == shorten_spec(s@, max_len as nat),
{
    let t = trim_chars(s);
    if t.len() > max_len {
        let keep: usize = if max_len > 0 {
            max_len - 1
        } else {
            0
        };
        let e = trailing_ws_start(&t, 0, keep);
        let mut out = slice_chars(&t, 0, e);
        out.push('…');
        assert(t@.take(keep as int) =~= t@.subrange(0, keep as int));
        string_of(&out)
    } else {
        string_of(&t)
    }
}

/// Strips emoji and conventional-commit prefixes from a title and shortens it
/// to `max_len` characters.
pub fn clean_commit_title(title: &str, max_len: usize) -> (r: String)
    ensures
        r@ == clean_title_spec(title@, max_len as nat),
{
    if title.is_empty() {
        return String::new();
    }
    let v0 = chars_of(title);
    let v1 = strip_cc_prefix(&strip_leading_emoji(&v0));
    let v2 = strip_cc_prefix(&strip_leading_emoji(&v1));
    let v3 = strip_cc_prefix(&strip_leading_emoji(&v2));
    shorten_title(&v3, max_len)
}

/// Start of the last `/`-separated segment of `s[..i]`.
pub open spec fn last_seg_start(s: Seq<char>, i: nat) -> nat
    decreases i,
{
    if i == 0 || i > s.len() || s[i - 1] == '/' {
        i
    } else {
        last_seg_start(s, (i - 1) as nat)
    }
}

/// The part of a path after its last `/` (the whole path without one).
pub open spec fn last_segment(s: Seq<char>) -> Seq<char> {
    s.subrange(last_seg_start(s, s.len()) as int, s.len() as int)
}

/// Lock files, always generated.
pub open spec fn lock_files() -> Seq<Seq<char>> {
    seq![
        "package-lock.json"@, "yarn.lock"@, "pnpm-lock.yaml"@, "cargo.lock"@, "composer.lock"@,
        "poetry.lock"@, "gemfile.lock"@, "go.sum"@, "bun.lockb"@,
    ]
}

/// Directories whose contents are build output or vendored code.
pub open spec fn generated_dirs() -> Seq<Seq<char>> {
    seq![
        "node_modules"@, "dist"@, "build"@, "out"@, ".next"@, "target"@, ".cache"@, ".turbo"@,
    ]
}

/// A path already lower-cased and with `\` turned into `/` names a generated
/// file: a lock file, minified code, a source map, or anything under one of
/// the generated directories.
pub open spec fn generated_spec(p: Seq<char>) -> bool {
    ||| exists|i: int| 0 <= i < lock_files().len() && last_segment(p) == #[trigger] lock_files()[i]
    ||| seq_ends_with(p, ".min.js"@) || seq_ends_with(p, ".min.css"@) || seq_ends_with(p, ".map"@)
    ||| exists|i: int|
        0 <= i < generated_dirs().len() && (seq_starts_with(p, #[trigger] generated_dirs()[i] + "/"@)
            || seq_contains(p, "/"@ + generated_dirs()[i] + "/"@))
}

/// `\` replaced by `/`.
pub open spec fn forward_slashes(s: Seq<char>) -> Seq<char> {
    s.map_values(|c: char| if c == '\\' { '/' } else { c })
}

fn last_seg_start_exec(v: &Vec<char>) -> (r: usize)
    ensures
        r == last_seg_start(v@, v.len() as nat),
        r <= v.len(),
{
    let mut i = v.len();
    while i > 0 && v[i - 1] != '/'
        invariant
            i <= v.len(),
            last_seg_start(v@, i as nat) == last_seg_start(v@, v.len() as nat),
        decreases i,
    {
        i = i - 1;
    }
    i
}

fn joined(a: &str, b: &str, c: &str) -> (r: Vec<char>)
    ensures
        r@ == a@ + b@ + c@,
{
    let mut r = chars_of(a);
    let bv = chars_of(b);
    let cv = chars_of(c);
    let mut k: usize = 0;
    while k < bv.len()
        invariant
            k <= bv.len(),
            r@ == a@ + bv@.take(k as int),
        decreases bv.len() - k,
    {
        r.push(bv[k]);
        k = k + 1;
        assert(r@ =~= a@ + bv@.take(k as int));
    }
    assert(bv@.take(bv.len() as int) =~= bv@);
    let ghost ab = r@;
    let mut k: usize = 0;
    while k < cv.len()
        invariant
            k <= cv.len(),
            r@ == ab + cv@.take(k as int),
        decreases cv.len() - k,
    {
        r.push(cv[k]);
        k = k + 1;
        assert(r@ =~= ab + cv@.take(k as int));
    }
    assert(cv@.take(cv.len() as int) =~= cv@);
    r
}

/// The generated-file test on a path already lower-cased.
pub fn is_generated_lowercase(lower: &str) -> (r: bool)
    ensures
        r == generated_spec(forward_slashes(lower@)),
{
    let src = chars_of(lower);
    let mut p: Vec<char> = Vec::new();
    let mut k: usize = 0;
    while k < src.len()
        invariant
            k <= src.len(),
            p@ == forward_slashes(src@.take(k as int)),
        decreases src.len() - k,
    {
        let c = src[k];
        p.push(if c == '\\' { '/' } else { c });
        k = k + 1;
        assert(p@ =~= forward_slashes(src@.take(k as int)));
    }
    assert(src@.take(src.len() as int) =~= src@);
    let st = last_seg_start_exec(&p);
    let seg = slice_chars(&p, st, p.len());
    let locks: Vec<&str> = vec![
        "package-lock.json", "yarn.lock", "pnpm-lock.yaml", "cargo.lock", "composer.lock",
        "poetry.lock", "gemfile.lock", "go.sum", "bun.lockb",
    ];
    assert(locks@.map_values(|x: &str| x@) =~= lock_files());
    let mut i: usize = 0;
    while i < locks.len()
        invariant
            i <= locks.len(),
            locks@.map_values(|x: &str| x@) == lock_files(),
            p@ == forward_slashes(lower@),
            seg@ == last_segment(p@),
            forall|j: int| 0 <= j < i ==> last_segment(p@) != #[trigger] lock_files()[j],
        decreases locks.len() - i,
    {
        if seq_eq(&seg, &chars_of(locks[i])) {
            assert(last_segment(p@) == lock_files()[i as int]);
            return true;
        }
        i = i + 1;
    }
    if ends_with_chars(&p, &chars_of(".min.js")) || ends_with_chars(&p, &chars_of(".min.css"))
        || ends_with_chars(&p, &chars_of(".map")) {
        return true;
    }
    let dirs: Vec<&str> = vec![
        "node_modules", "dist", "build", "out", ".next", "target", ".cache", ".turbo",
    ];
    assert(dirs@.map_values(|x: &str| x@) =~= generated_dirs());
    let mut i: usize = 0;
    while i < dirs.len()
        invariant
            i <= dirs.len(),
            dirs@.map_values(|x: &str| x@) == generated_dirs(),
            p@ == forward_slashes(lower@),
            forall|j: int|
                0 <= j < i ==> !(seq_starts_with(p@, #[trigger] generated_dirs()[j] + "/"@)
                    || seq_contains(p@, "/"@ + generated_dirs()[j] + "/"@)),
        decreases dirs.len() - i,
    {
        let lead = joined(dirs[i], "/", "");
        let inner = joined("/", dirs[i], "/");
        proof {
            reveal_strlit("");
        }
        assert(dirs@[i as int]@ == generated_dirs()[i as int]);
        assert(lead@ =~= generated_dirs()[i as int] + "/"@);
        if starts_with_chars(&p, &lead) || contains_chars(&p, &inner) {
            return true;
        }
        i = i + 1;
    }
    false
}

/// Lock files are always generated: a lower-cased path whose last segment
/// is `package-lock.json`, `yarn.lock`, `pnpm-lock.yaml`, `cargo.lock`,
/// `composer.lock`, `poetry.lock`, `gemfile.lock`, `go.sum` or `bun.lockb`
/// is never counted as code.
pub proof fn lemma_lock_files_generated(lower: Seq<char>, name: Seq<char>)
    requires
        seq![
            "package-lock.json"@, "yarn.lock"@, "pnpm-lock.yaml"@, "cargo.lock"@, "composer.lock"@,
            "poetry.lock"@, "gemfile.lock"@, "go.sum"@, "bun.lockb"@,
        ].contains(name),
        last_segment(forward_slashes(lower)) == name,
    ensures
        generated_spec(forward_slashes(lower)),
{
    let names: Seq<Seq<char>> = seq![
        "package-lock.json"@, "yarn.lock"@, "pnpm-lock.yaml"@, "cargo.lock"@, "composer.lock"@,
        "poetry.lock"@, "gemfile.lock"@, "go.sum"@, "bun.lockb"@,
    ];
    let i = choose|i: int| 0 <= i < names.len() && names[i] == name;
    assert(lock_files()[i] == names[i]);
}

/// Which lower-cased paths are generated, and nothing else: a lock file
/// (`package-lock.json`, `yarn.lock`, `pnpm-lock.yaml`, `cargo.lock`,
/// `composer.lock`, `poetry.lock`, `gemfile.lock`, `go.sum`, `bun.lockb`)
/// as the last segment; minified code or a source map (`.min.js`,
/// `.min.css`, `.map` at the end); or a whole path segment naming build
/// output or vendored code (`node_modules`, `dist`, `build`, `out`,
/// `.next`, `target`, `.cache`, `.turbo`) before the file.
pub proof fn lemma_generated_rules(lower: Seq<char>)
    ensures
        ({
            let p = forward_slashes(lower);
            let locks: Seq<Seq<char>> = seq![
                "package-lock.json"@, "yarn.lock"@, "pnpm-lock.yaml"@, "cargo.lock"@, "composer.lock"@,
                "poetry.lock"@, "gemfile.lock"@, "go.sum"@, "bun.lockb"@,
            ];
            let dirs: Seq<Seq<char>> = seq![
                "node_modules"@, "dist"@, "build"@, "out"@, ".next"@, "target"@, ".cache"@, ".turbo"@,
            ];
            generated_spec(p) <==> (locks.contains(last_segment(p)) || seq_ends_with(p, ".min.js"@)
                || seq_ends_with(p, ".min.css"@) || seq_ends_with(p, ".map"@) || exists|i: int|
                0 <= i < dirs.len() && (seq_starts_with(p, #[trigger] dirs[i] + "/"@) || seq_contains(
                    p,
                    "/"@ + dirs[i] + "/"@,
                )))
        }),
{
    let locks: Seq<Seq<char>> = seq![
        "package-lock.json"@, "yarn.lock"@, "pnpm-lock.yaml"@, "cargo.lock"@, "composer.lock"@,
        "poetry.lock"@, "gemfile.lock"@, "go.sum"@, "bun.lockb"@,
    ];
    let dirs: Seq<Seq<char>> = seq![
        "node_modules"@, "dist"@, "build"@, "out"@, ".next"@, "target"@, ".cache"@, ".turbo"@,
    ];
    assert(locks =~= lock_files());
    assert(dirs =~= generated_dirs());
    let p = forward_slashes(lower);
    if locks.contains(last_segment(p)) {
        let i = choose|i: int| 0 <= i < locks.len() && locks[i] == last_segment(p);
        assert(lock_files()[i] == last_segment(p));
    }
    if exists|i: int| 0 <= i < lock_files().len() && last_segment(p) == #[trigger] lock_files()[i] {
        let i = choose|i: int| 0 <= i < lock_files().len() && last_segment(p) == #[trigger] lock_files()[i];
        assert(locks[i] == last_segment(p));
    }
}

/// A changed lock file adds no lines to a commit's count.
pub proof fn lemma_lock_file_not_counted(f: CommitStatFile, name: Seq<char>)
    requires
        seq![
            "package-lock.json"@, "yarn.lock"@, "pnpm-lock.yaml"@, "cargo.lock"@, "composer.lock"@,
            "poetry.lock"@, "gemfile.lock"@, "go.sum"@, "bun.lockb"@,
        ].contains(name),
        last_segment(forward_slashes(lowercase_of(f.path@))) == name,
    ensures
        !counted_file(f),
{
    lemma_lock_files_generated(lowercase_of(f.path@), name);
}

/// Slashes in either direction count the same: a lower-cased path whose
/// `\` are already turned into `/` gets the same answer as the path itself.
pub proof fn lemma_generated_separators(lower: Seq<char>)
    ensures
        forward_slashes(forward_slashes(lower)) == forward_slashes(lower),
        generated_spec(forward_slashes(forward_slashes(lower))) == generated_spec(forward_slashes(lower)),
{
    assert(forward_slashes(forward_slashes(lower)) =~= forward_slashes(lower));
}

/// Whether a changed file is generated (and so left out of effort counts).
pub fn is_generated_path(p: &str) -> (r: bool)
    ensures
        r == generated_spec(forward_slashes(lowercase_of(p@))),
{
    let lower = to_lowercase(p);
    is_generated_lowercase(lower.as_str())
}


/// A file counted towards a commit's size: not binary, not generated.
pub open spec fn counted_file(f: CommitStatFile) -> bool {
    !(f.binary == Some(true)) && !generated_spec(forward_slashes(lowercase_of(f.path@)))
}

/// Lines inserted and deleted in the counted files among the first `n`.
pub open spec fn counted_lines(files: Seq<CommitStatFile>, n: int) -> int
    decreases n,
{
    if n <= 0 {
        0
    } else {
        counted_lines(files, n - 1) + if counted_file(files[n - 1]) {
            files[n - 1].insertions + files[n - 1].deletions
        } else {
            0
        }
    }
}

proof fn lemma_counted_lines_same_prefix(files: Seq<CommitStatFile>, f: CommitStatFile, n: int)
    requires
        0 <= n <= files.len(),
    ensures
        counted_lines(files.push(f), n) == counted_lines(files, n),
    decreases n,
{
    if n > 0 {
        lemma_counted_lines_same_prefix(files, f, n - 1);
        assert(files.push(f)[n - 1] == files[n - 1]);
    }
}

/// A commit's line count adds up its files one by one: each file that is
/// neither binary nor generated adds its inserted and deleted lines, any
/// other file adds nothing.
pub proof fn lemma_counted_lines_add_up(files: Seq<CommitStatFile>, f: CommitStatFile)
    ensures
        counted_lines(files.push(f), files.len() as int + 1) == counted_lines(files, files.len() as int) + if f.binary
            != Some(true) && !generated_spec(forward_slashes(lowercase_of(f.path@))) {
            f.insertions + f.deletions
        } else {
            0
        },
        counted_lines(Seq::empty(), 0) == 0,
{
    lemma_counted_lines_same_prefix(files, f, files.len() as int);
    assert(files.push(f)[files.len() as int] == f);
}

/// The size of a commit for effort estimates, in changed lines: the counted
/// files when the per-file numbers are known, else the commit's totals;
/// none without numbers.
pub open spec fn commit_loc_spec(c: LocalCommit) -> Option<int> {
    match c.stat {
        None => None,
        Some(st) => if st.files.len() > 0 {
            Some(counted_lines(st.files@, st.files.len() as int))
        } else {
            Some(st.insertions + st.deletions)
        },
    }
}

/// Every partial line count fits in a `usize`.
pub open spec fn loc_fits(c: LocalCommit) -> bool {
    match c.stat {
        None => true,
        Some(st) => if st.files.len() > 0 {
            forall|n: int| 0 <= n <= st.files.len() ==> #[trigger] counted_lines(st.files@, n) <= usize::MAX
        } else {
            st.insertions + st.deletions <= usize::MAX
        },
    }
}

/// Counts the changed lines of a commit.
pub fn commit_loc(c: &LocalCommit) -> (r: Option<usize>)
    requires
        loc_fits(*c),
    ensures
        match r {
            Some(n) => commit_loc_spec(*c) == Some(n as int),
            None => commit_loc_spec(*c).is_none(),
        },
{
    let st = match &c.stat {
        Some(s) => s,
        None => return None,
    };
    if st.files.len() == 0 {
        return Some(st.insertions + st.deletions);
    }
    let mut loc: usize = 0;
    let mut i: usize = 0;
    while i < st.files.len()
        invariant
            i <= st.files.len(),
            loc == counted_lines(st.files@, i as int),
            forall|n: int| 0 <= n <= st.files.len() ==> #[trigger] counted_lines(st.files@, n) <= usize::MAX,
        decreases st.files.len() - i,
    {
        let f = &st.files[i];
        let binary = match f.binary {
            Some(b) => b,
            None => false,
        };
        if !binary && !is_generated_path(f.path.as_str()) {
            assert(counted_lines(st.files@, i + 1) <= usize::MAX);
            loc = loc + f.insertions + f.deletions;
        }
        i = i + 1;
    }
    Some(loc)
}

proof fn lemma_counted_lines_grow(files: Seq<CommitStatFile>, m: int, n: int)
    requires
        0 <= m <= n,
    ensures
        counted_lines(files, m) <= counted_lines(files, n),
    decreases n - m,
{
    if m < n {
        lemma_counted_lines_grow(files, m, n - 1);
    }
}

/// Whether the line count of a commit fits in a `usize` (what `commit_loc`
/// asks for).
pub fn loc_fits_exec(c: &LocalCommit) -> (r: bool)
    ensures
        r == loc_fits(*c),
{
    let st = match &c.stat {
        Some(s) => s,
        None => return true,
    };
    if st.files.len() == 0 {
        return st.insertions.checked_add(st.deletions).is_some();
    }
    let mut loc: usize = 0;
    let mut i: usize = 0;
    while i < st.files.len()
        invariant
            i <= st.files.len(),
            loc == counted_lines(st.files@, i as int),
            c.stat == Some(*st),
            st.files.len() > 0,
            forall|n: int| 0 <= n <= i ==> #[trigger] counted_lines(st.files@, n) <= usize::MAX,
        decreases st.files.len() - i,
    {
        let f = &st.files[i];
        let binary = match f.binary {
            Some(b) => b,
            None => false,
        };
        if !binary && !is_generated_path(f.path.as_str()) {
            match loc.checked_add(f.insertions) {
                Some(a) => match a.checked_add(f.deletions) {
                    Some(b) => {
                        loc = b;
                    },
                    None => {
                        assert(counted_lines(st.files@, i + 1) > usize::MAX);
                        return false;
                    },
                },
                None => {
                    assert(counted_lines(st.files@, i + 1) > usize::MAX);
                    return false;
                },
            }
        }
        i = i + 1;
        assert(counted_lines(st.files@, i as int) <= usize::MAX);
    }
    assert forall|n: int| 0 <= n <= st.files.len() implies #[trigger] counted_lines(st.files@, n) <= usize::MAX by {
        lemma_counted_lines_grow(st.files@, n, st.files.len() as int);
    }
    true
}

proof fn lemma_trim_start_first(s: Seq<char>)
    ensures
        trim_start_seq(s).len() > 0 ==> !is_ws(trim_start_seq(s)[0]),
    decreases s.len(),
{
    if s.len() > 0 && is_ws(s[0]) {
        lemma_trim_start_first(s.drop_first());
    }
}

proof fn lemma_trim_end_shape(s: Seq<char>)
    ensures
        trim_end_seq(s).len() <= s.len(),
        trim_end_seq(s) == s.take(trim_end_seq(s).len() as int),
        trim_end_seq(s).len() > 0 ==> !is_ws(trim_end_seq(s).last()),
        s.len() > 0 && !is_ws(s[0]) ==> trim_end_seq(s).len() > 0,
    decreases s.len(),
{
    if s.len() > 0 && is_ws(s.last()) {
        lemma_trim_end_shape(s.drop_last());
        let r = trim_end_seq(s.drop_last());
        assert(s.drop_last().take(r.len() as int) =~= s.take(r.len() as int));
        if s.len() > 1 && !is_ws(s[0]) {
            assert(s.drop_last()[0] == s[0]);
        }
    } else {
        assert(s.take(s.len() as int) =~= s);
    }
}

proof fn lemma_trim_ends_settled(r: Seq<char>)
    requires
        r.len() > 0 ==> !is_ws(r[0]) && !is_ws(r.last()),
    ensures
        trim_seq(r) == r,
{
    assert(trim_start_seq(r) == r);
}

/// A cleaned title: empty for an empty title; otherwise never longer than
/// `max_len` characters (one, the ellipsis, when `max_len` is 0), with no
/// white space at either end; when the stripped, trimmed title is longer it
/// ends with `…` and what comes before is a prefix of that title, and
/// otherwise it is that title itself.
pub proof fn lemma_clean_title_bounds(title: Seq<char>, max_len: nat)
    ensures
        title.len() == 0 ==> clean_title_spec(title, max_len) == Seq::<char>::empty(),
        title.len() > 0 ==> ({
            let t = trim_seq(strip_once(strip_once(strip_once(title))));
            let r = clean_title_spec(title, max_len);
            &&& r.len() <= if max_len > 0 { max_len } else { 1 }
            &&& trim_seq(r) == r
            &&& t.len() > max_len ==> r.len() > 0 && r.last() == '…' && t.take(r.len() - 1) == r.drop_last()
            &&& t.len() <= max_len ==> r == t
        }),
{
    if title.len() > 0 {
        let s = strip_once(strip_once(strip_once(title)));
        lemma_shorten_bounds(s, max_len);
    }
}

/// What `shorten_title` gives has the shape of a cleaned title.
pub proof fn lemma_shorten_bounds(s: Seq<char>, max_len: nat)
    ensures
        ({
            let t = trim_seq(s);
            let r = shorten_spec(s, max_len);
            &&& r.len() <= if max_len > 0 { max_len } else { 1 }
            &&& trim_seq(r) == r
            &&& t.len() > max_len ==> r.len() > 0 && r.last() == '…' && t.take(r.len() - 1) == r.drop_last()
            &&& t.len() <= max_len ==> r == t
        }),
{
    let ts = trim_start_seq(s);
    let t = trim_seq(s);
    lemma_trim_start_first(s);
    lemma_trim_end_shape(ts);
    if t.len() > 0 {
        assert(t[0] == ts[0]);
    }
    if t.len() > max_len {
        let keep: nat = if max_len > 0 { (max_len - 1) as nat } else { 0 };
        let p = t.take(keep as int);
        lemma_trim_end_shape(p);
        let u = trim_end_seq(p);
        let r = u.push('…');
        assert(!is_ws('…'));
        if keep > 0 {
            assert(p[0] == t[0]);
        }
        if u.len() > 0 {
            assert(u[0] == p[0]);
            assert(r[0] == u[0]);
        }
        lemma_trim_ends_settled(r);
        assert(r.drop_last() =~= u);
        assert(t.take(u.len() as int) =~= p.take(u.len() as int));
    } else {
        lemma_trim_ends_settled(t);
    }
}

} // verus!
