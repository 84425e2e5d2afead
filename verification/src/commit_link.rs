//! Linking local commits to tasks: business lines from repository paths,
//! task numbers written in commit messages, and the assignment of each commit
//! to tasks or to the unassigned bucket.

use vstd::prelude::*;
use crate::channels::strip_trailing;
use crate::git::{forward_slashes, last_seg_start, last_segment, LocalCommit};
use crate::text::{
    chars_of, lemma_str_lt_order, push_str, seq_eq, seq_starts_with, slice_chars, starts_with_chars,
    str_less, str_lt, string_of,
};

verus! {

/// A task commits may be linked to.
#[derive(Debug, Clone)]
pub struct TaskInput {
    pub id: String,
    pub name: String,
}

/// How a commit was linked to a task.
#[derive(Debug, Clone, Copy, PartialEq, Eq, Structural)]
pub enum MatchType {
    /// The commit message names the task (`#1234`).
    Exact,
    /// Inferred from the task bound to the commit's repository.
    Soft,
}

/// A path with `\` turned into `/` and no trailing `/`.
pub open spec fn norm_path_spec(p: Seq<char>) -> Seq<char> {
    strip_trailing(forward_slashes(p), '/')
}

/// Normalises a path for comparison.
pub fn norm_path(p: &str) -> (r: String)
    ensures
        r@ == norm_path_spec(p@),
{
    let src = chars_of(p);
    let mut v: Vec<char> = Vec::new();
    let mut k: usize = 0;
    while k < src.len()
        invariant
            k <= src.len(),
            v@ == forward_slashes(src@.take(k as int)),
        decreases src.len() - k,
    {
        let c = src[k];
        v.push(if c == '\\' { '/' } else { c });
        k = k + 1;
        assert(v@ =~= forward_slashes(src@.take(k as int)));
    }
    assert(src@.take(src.len() as int) =~= src@);
    let mut end = v.len();
    assert(v@.subrange(0, end as int) =~= v@);
    while end > 0 && v[end - 1] == '/'
        invariant
            end <= v.len(),
            strip_trailing(v@.subrange(0, end as int), '/') == strip_trailing(v@, '/'),
        decreases end,
    {
        assert(v@.subrange(0, end as int).drop_last() =~= v@.subrange(0, end - 1));
        end = end - 1;
    }
    string_of(&slice_chars(&v, 0, end))
}

/// The last component of a normalised path.
pub open spec fn basename_spec(p: Seq<char>) -> Seq<char> {
    last_segment(norm_path_spec(p))
}

/// The last component of a path (the repository name).
pub fn basename(p: &str) -> (r: String)
    ensures
        r@ == basename_spec(p@),
{
    let np = chars_of(norm_path(p).as_str());
    let mut i = np.len();
    while i > 0 && np[i - 1] != '/'
        invariant
            i <= np.len(),
            last_seg_start(np@, i as nat) == last_seg_start(np@, np.len() as nat),
        decreases i,
    {
        i = i - 1;
    }
    string_of(&slice_chars(&np, i, np.len()))
}

/// Position of the first `/` at or after `i` (or the length).
pub open spec fn seg_end(s: Seq<char>, i: nat) -> nat
    decreases s.len() - i,
{
    if i < s.len() && s[i as int] != '/' {
        seg_end(s, i + 1)
    } else {
        i
    }
}

/// Position of the first character that is not `/` at or after `i`.
pub open spec fn skip_slashes(s: Seq<char>, i: nat) -> nat
    decreases s.len() - i,
{
    if i < s.len() && s[i as int] == '/' {
        skip_slashes(s, i + 1)
    } else {
        i
    }
}

/// The first non-empty `/`-separated component of `s`.
pub open spec fn first_segment(s: Seq<char>) -> Option<Seq<char>> {
    let a = skip_slashes(s, 0);
    if a < s.len() {
        Some(s.subrange(a as int, seg_end(s, a) as int))
    } else {
        None
    }
}

/// Business line of a repository (normalised path `np`): the first directory
/// below the first root that holds it, the repository name for a root itself
/// or when no root holds it.
pub open spec fn business_line_from(np: Seq<char>, roots: Seq<Seq<char>>) -> Seq<char>
    decreases roots.len(),
{
    if roots.len() == 0 {
        basename_spec(np)
    } else {
        let nr = norm_path_spec(roots[0]);
        if np == nr {
            basename_spec(np)
        } else if seq_starts_with(np, nr.push('/')) && first_segment(
            np.subrange(nr.len() as int + 1, np.len() as int),
        ).is_some() {
            first_segment(np.subrange(nr.len() as int + 1, np.len() as int)).unwrap()
        } else {
            business_line_from(np, roots.drop_first())
        }
    }
}

/// `root` holds the repository at normalised path `np`: it is the root
/// itself, or lies below `root/` with a non-empty first component.
pub open spec fn root_holds(np: Seq<char>, root: Seq<char>) -> bool {
    let nr = norm_path_spec(root);
    np == nr || (seq_starts_with(np, nr.push('/')) && first_segment(
        np.subrange(nr.len() as int + 1, np.len() as int),
    ).is_some())
}

/// The business line a holding root gives: the first directory below it, or
/// the repository name when the repository is the root itself.
pub open spec fn line_under(np: Seq<char>, root: Seq<char>) -> Seq<char> {
    let nr = norm_path_spec(root);
    if np == nr {
        basename_spec(np)
    } else {
        first_segment(np.subrange(nr.len() as int + 1, np.len() as int)).unwrap()
    }
}

/// The business line is decided by the first root that holds the
/// repository, wherever it stands in the list: roots before it that do not
/// hold the repository change nothing; with no root holding it, the
/// repository's own name is the business line.
pub proof fn lemma_business_line_first_root(np: Seq<char>, roots: Seq<Seq<char>>, i: int)
    requires
        0 <= i <= roots.len(),
        forall|k: int| 0 <= k < i ==> !root_holds(np, #[trigger] roots[k]),
    ensures
        i < roots.len() && root_holds(np, roots[i]) ==> business_line_from(np, roots) == line_under(np, roots[i]),
        i == roots.len() ==> business_line_from(np, roots) == basename_spec(np),
        business_line_from(np, roots) == business_line_from(np, roots.skip(i)),
    decreases i,
{
    if i > 0 {
        assert(!root_holds(np, roots[0]));
        let rest = roots.drop_first();
        assert forall|k: int| 0 <= k < i - 1 implies !root_holds(np, #[trigger] rest[k]) by {
            assert(rest[k] == roots[k + 1]);
        }
        lemma_business_line_first_root(np, rest, i - 1);
        assert(rest.skip(i - 1) =~= roots.skip(i));
        if i < roots.len() {
            assert(rest[i - 1] == roots[i]);
        }
    } else {
        assert(roots.skip(0) =~= roots);
    }
}

fn first_segment_exec(v: &Vec<char>) -> (r: Option<Vec<char>>)
    ensures
        match r {
            Some(x) => first_segment(v@) == Some(x@),
            None => first_segment(v@).is_none(),
        },
{
    let mut a: usize = 0;
    while a < v.len() && v[a] == '/'
        invariant
            a <= v.len(),
            skip_slashes(v@, a as nat) == skip_slashes(v@, 0),
        decreases v.len() - a,
    {
        a = a + 1;
    }
    if a >= v.len() {
        return None;
    }
    let mut e = a;
    while e < v.len() && v[e] != '/'
        invariant
            a <= e <= v.len(),
            seg_end(v@, e as nat) == seg_end(v@, a as nat),
        decreases v.len() - e,
    {
        e = e + 1;
    }
    Some(slice_chars(v, a, e))
}

/// The business line a repository belongs to: the first directory level under
/// the scan root that holds it (`D:/coding/物流/foo` under `D:/coding` gives
/// `物流`); for a root itself, or a path under no root, the repository name.
pub fn extract_business_line(repo_path: &str, root_dirs: &Vec<String>) -> (r: String)
    ensures
        r@ == business_line_from(
            norm_path_spec(repo_path@),
            root_dirs@.map_values(|s: String| s@),
        ),
{
    let ghost roots = root_dirs@.map_values(|s: String| s@);
    let nps = norm_path(repo_path);
    let np = chars_of(nps.as_str());
    let mut i: usize = 0;
    assert(roots.skip(0) =~= roots);
    while i < root_dirs.len()
        invariant
            i <= root_dirs.len(),
            roots == root_dirs@.map_values(|s: String| s@),
            np@ == norm_path_spec(repo_path@),
            nps@ == np@,
            business_line_from(np@, roots) == business_line_from(np@, roots.skip(i as int)),
        decreases root_dirs.len() - i,
    {
        let ghost rest = roots.skip(i as int);
        assert(rest[0] == root_dirs@[i as int]@);
        assert(rest.drop_first() =~= roots.skip(i + 1));
        let nr = chars_of(norm_path(root_dirs[i].as_str()).as_str());
        if seq_eq(&np, &nr) {
            return basename(nps.as_str());
        }
        let mut prefix = slice_chars(&nr, 0, nr.len());
        prefix.push('/');
        assert(nr@.subrange(0, nr.len() as int) =~= nr@);
        if starts_with_chars(&np, &prefix) {
            let rel = slice_chars(&np, prefix.len(), np.len());
            match first_segment_exec(&rel) {
                Some(seg) => {
                    return string_of(&seg);
                },
                None => {},
            }
        }
        i = i + 1;
    }
    basename(nps.as_str())
}

/// A commit as the linker sees it: its hash, date, and the task numbers its
/// message names.
#[derive(Debug, Clone)]
pub struct LinkItem {
    pub sha: String,
    pub authored_date: String,
    pub task_ids: Vec<String>,
}

/// The commits of one repository, with the tasks bound to that repository.
#[derive(Debug, Clone)]
pub struct RepoItems {
    pub repo_path: String,
    pub business_line: String,
    pub bound_task_ids: Vec<String>,
    pub items: Vec<LinkItem>,
}

/// Where a commit goes.
#[derive(Debug, Clone)]
pub enum ItemLink {
    /// Its message names these active tasks.
    Exact(Vec<String>),
    /// Its repository is bound to exactly this one active task.
    Bound(String),
    /// Put under the named task once classified.
    Classified(String),
    /// Its repository is bound to several active tasks; the classifier decides.
    Pending,
    /// It belongs to no task.
    Unassigned,
}

/// The strings of a `Vec<String>`.
pub open spec fn strs(v: Vec<String>) -> Seq<Seq<char>> {
    v@.map_values(|s: String| s@)
}

/// The entries of `ids` that are in `tasks`, in order.
pub open spec fn keep_known(ids: Seq<Seq<char>>, tasks: Seq<Seq<char>>) -> Seq<Seq<char>>
    decreases ids.len(),
{
    if ids.len() == 0 {
        ids
    } else {
        let r = keep_known(ids.drop_last(), tasks);
        if tasks.contains(ids.last()) {
            r.push(ids.last())
        } else {
            r
        }
    }
}

/// Whether `v` holds `x`.
pub fn contains_string(v: &Vec<String>, x: &String) -> (r: bool)
    ensures
        r == strs(*v).contains(x@),
{
    let mut i: usize = 0;
    while i < v.len()
        invariant
            i <= v.len(),
            forall|j: int| 0 <= j < i ==> strs(*v)[j] != x@,
        decreases v.len() - i,
    {
        if v[i] == *x {
            assert(strs(*v)[i as int] == x@);
            return true;
        }
        i = i + 1;
    }
    false
}

/// The entries of `ids` that name active tasks.
pub fn keep_known_tasks(ids: &Vec<String>, tasks: &Vec<String>) -> (r: Vec<String>)
    ensures
        strs(r) == keep_known(strs(*ids), strs(*tasks)),
{
    let mut out: Vec<String> = Vec::new();
    let mut i: usize = 0;
    assert(strs(*ids).take(0) =~= Seq::<Seq<char>>::empty());
    while i < ids.len()
        invariant
            i <= ids.len(),
            strs(out) == keep_known(strs(*ids).take(i as int), strs(*tasks)),
        decreases ids.len() - i,
    {
        assert(strs(*ids).take(i + 1).drop_last() =~= strs(*ids).take(i as int));
        if contains_string(tasks, &ids[i]) {
            out.push(ids[i].clone());
        }
        i = i + 1;
        assert(strs(out) =~= keep_known(strs(*ids).take(i as int), strs(*tasks)));
    }
    assert(strs(*ids).take(ids.len() as int) =~= strs(*ids));
    out
}

/// The first-pass outcome of a commit whose message names `ids`, in a
/// repository whose active bound tasks are `cands`: the named active tasks
/// when there are any; else the one bound task; else, with several bound
/// tasks and the classifier enabled, pending; else unassigned.
pub open spec fn plan_matches(
    link: ItemLink,
    ids: Seq<Seq<char>>,
    cands: Seq<Seq<char>>,
    tasks: Seq<Seq<char>>,
    use_llm: bool,
) -> bool {
    let exact = keep_known(ids, tasks);
    if exact.len() > 0 {
        link matches ItemLink::Exact(v) && strs(v) == exact
    } else if cands.len() == 1 {
        link matches ItemLink::Bound(t) && t@ == cands[0]
    } else if cands.len() > 1 && use_llm {
        link is Pending
    } else {
        link is Unassigned
    }
}

/// First-pass outcome of every commit of a repository.
pub fn plan_repo_links(repo: &RepoItems, tasks: &Vec<String>, use_llm: bool) -> (r: Vec<ItemLink>)
    ensures
        r.len() == repo.items.len(),
        forall|j: int|
            0 <= j < r.len() ==> plan_matches(
                #[trigger] r@[j],
                strs(repo.items@[j].task_ids),
                keep_known(strs(repo.bound_task_ids), strs(*tasks)),
                strs(*tasks),
                use_llm,
            ),
{
    let cands = keep_known_tasks(&repo.bound_task_ids, tasks);
    let mut out: Vec<ItemLink> = Vec::new();
    let mut j: usize = 0;
    while j < repo.items.len()
        invariant
            j <= repo.items.len(),
            out.len() == j,
            strs(cands) == keep_known(strs(repo.bound_task_ids), strs(*tasks)),
            forall|k: int|
                0 <= k < j ==> plan_matches(
                    #[trigger] out@[k],
                    strs(repo.items@[k].task_ids),
                    strs(cands),
                    strs(*tasks),
                    use_llm,
                ),
        decreases repo.items.len() - j,
    {
        let exact = keep_known_tasks(&repo.items[j].task_ids, tasks);
        let link = if exact.len() > 0 {
            ItemLink::Exact(exact)
        } else if cands.len() == 1 {
            assert(strs(cands)[0] == cands@[0]@);
            ItemLink::Bound(cands[0].clone())
        } else if cands.len() > 1 && use_llm {
            ItemLink::Pending
        } else {
            ItemLink::Unassigned
        };
        out.push(link);
        j = j + 1;
    }
    out
}

/// First-pass outcome of every commit of every repository.
pub fn plan_links(repos: &Vec<RepoItems>, tasks: &Vec<String>, use_llm: bool) -> (r: Vec<
    Vec<ItemLink>,
>)
    ensures
        r.len() == repos.len(),
        forall|i: int|
            0 <= i < r.len() ==> (#[trigger] r@[i]).len() == repos@[i].items.len() && forall|
                j: int,
            |
                0 <= j < r@[i].len() ==> plan_matches(
                    #[trigger] r@[i]@[j],
                    strs(repos@[i].items@[j].task_ids),
                    keep_known(strs(repos@[i].bound_task_ids), strs(*tasks)),
                    strs(*tasks),
                    use_llm,
                ),
{
    let mut out: Vec<Vec<ItemLink>> = Vec::new();
    let mut i: usize = 0;
    while i < repos.len()
        invariant
            i <= repos.len(),
            out.len() == i,
            forall|k: int|
                0 <= k < i ==> (#[trigger] out@[k]).len() == repos@[k].items.len() && forall|
                    j: int,
                |
                    0 <= j < out@[k].len() ==> plan_matches(
                        #[trigger] out@[k]@[j],
                        strs(repos@[k].items@[j].task_ids),
                        keep_known(strs(repos@[k].bound_task_ids), strs(*tasks)),
                        strs(*tasks),
                        use_llm,
                    ),
        decreases repos.len() - i,
    {
        let links = plan_repo_links(&repos[i], tasks, use_llm);
        out.push(links);
        i = i + 1;
    }
    out
}

/// Number of pending commits among `links[..j]`.
pub open spec fn pending_before(links: Seq<ItemLink>, j: int) -> nat
    decreases j,
{
    if j <= 0 || j > links.len() {
        0
    } else {
        pending_before(links, j - 1) + if links[j - 1] is Pending {
            1nat
        } else {
            0nat
        }
    }
}

/// The outcome of a commit once the classifier has answered: a pending commit
/// takes its verdict (the verdicts are given in the order of the pending
/// commits; a missing or empty verdict leaves it unassigned); every other
/// commit keeps its outcome.
pub open spec fn verdict_applied(
    before: ItemLink,
    after: ItemLink,
    rank: nat,
    verdicts: Seq<Option<Seq<char>>>,
) -> bool {
    if before is Pending {
        if rank < verdicts.len() && verdicts[rank as int].is_some() {
            after matches ItemLink::Classified(t) && t@ == verdicts[rank as int].unwrap()
        } else {
            after is Unassigned
        }
    } else {
        after == before
    }
}

/// The verdicts as strings.
pub open spec fn verdict_strs(v: Vec<Option<String>>) -> Seq<Option<Seq<char>>> {
    v@.map_values(|o: Option<String>| match o {
        Some(s) => Some(s@),
        None => None,
    })
}

/// Number of commits of a repository still waiting for the classifier.
pub fn count_pending(links: &Vec<ItemLink>) -> (r: usize)
    ensures
        r == pending_before(links@, links.len() as int),
{
    let mut n: usize = 0;
    let mut j: usize = 0;
    while j < links.len()
        invariant
            j <= links.len(),
            n == pending_before(links@, j as int),
            n <= j,
        decreases links.len() - j,
    {
        if let ItemLink::Pending = links[j] {
            n = n + 1;
        }
        j = j + 1;
    }
    n
}

/// Records the classifier's verdicts on the pending commits of a repository.
pub fn apply_verdicts(links: &mut Vec<ItemLink>, verdicts: &Vec<Option<String>>)
    ensures
        final(links).len() == old(links).len(),
        forall|j: int|
            0 <= j < old(links).len() ==> verdict_applied(
                #[trigger] old(links)@[j],
                final(links)@[j],
                pending_before(old(links)@, j),
                verdict_strs(*verdicts),
            ),
{
    let ghost orig = links@;
    let mut rank: usize = 0;
    let mut j: usize = 0;
    while j < links.len()
        invariant
            j <= links.len() == orig.len(),
            rank == pending_before(orig, j as int),
            rank <= j,
            forall|k: int| j <= k < orig.len() ==> links@[k] == orig[k],
            forall|k: int|
                0 <= k < j ==> verdict_applied(
                    #[trigger] orig[k],
                    links@[k],
                    pending_before(orig, k),
                    verdict_strs(*verdicts),
                ),
        decreases links.len() - j,
    {
        let is_pending = match links[j] {
            ItemLink::Pending => true,
            _ => false,
        };
        if is_pending {
            let next = if rank < verdicts.len() {
                match &verdicts[rank] {
                    Some(t) => ItemLink::Classified(t.clone()),
                    None => ItemLink::Unassigned,
                }
            } else {
                ItemLink::Unassigned
            };
            links.set(j, next);
            rank = rank + 1;
        }
        j = j + 1;
    }
}

/// A commit by repository index and index within that repository.
#[derive(Debug, Clone, Copy, PartialEq, Eq, Structural)]
pub struct CommitPos {
    pub repo: usize,
    pub item: usize,
}

/// Unassigned commits sharing a business line.
#[derive(Debug, Clone)]
pub struct OrphanBucket {
    pub business_line: String,
    pub members: Vec<CommitPos>,
}

/// Commit `j` of repository `r` ended up unassigned.
pub open spec fn unassigned_at(links: Seq<Vec<ItemLink>>, r: int, j: int) -> bool {
    0 <= r < links.len() && 0 <= j < links[r].len() && links[r]@[j] is Unassigned
}

/// Repository-then-commit order.
pub open spec fn pos_lt(a: CommitPos, b: CommitPos) -> bool {
    a.repo < b.repo || (a.repo == b.repo && a.item < b.item)
}

/// A bucket holds exactly the unassigned commits of repositories with its
/// business line, in repository-then-commit order, among repositories `< upto`.
pub open spec fn bucket_ok(
    b: OrphanBucket,
    repos: Seq<RepoItems>,
    links: Seq<Vec<ItemLink>>,
    upto: int,
) -> bool {
    &&& b.members.len() > 0
    &&& forall|k: int|
        0 <= k < b.members.len() ==> {
            let m = #[trigger] b.members@[k];
            &&& m.repo < upto
            &&& unassigned_at(links, m.repo as int, m.item as int)
            &&& repos[m.repo as int].business_line@ == b.business_line@
        }
    &&& forall|r: int, j: int|
        0 <= r < upto && #[trigger] unassigned_at(links, r, j) && repos[r].business_line@
            == b.business_line@ ==> b.members@.contains(CommitPos { repo: r as usize, item: j as usize })
    &&& forall|k1: int, k2: int|
        0 <= k1 < k2 < b.members.len() ==> pos_lt(#[trigger] b.members@[k1], #[trigger] b.members@[k2])
}

/// The unassigned commits of repositories `< upto`, grouped by business line:
/// one bucket per business line (in no particular order), none empty.
pub open spec fn orphans_ok(
    buckets: Seq<OrphanBucket>,
    repos: Seq<RepoItems>,
    links: Seq<Vec<ItemLink>>,
    upto: int,
) -> bool {
    &&& forall|g: int| 0 <= g < buckets.len() ==> bucket_ok(#[trigger] buckets[g], repos, links, upto)
    &&& forall|g1: int, g2: int|
        0 <= g1 < g2 < buckets.len() ==> (#[trigger] buckets[g1]).business_line@
            != (#[trigger] buckets[g2]).business_line@
    &&& forall|r: int, j: int|
        0 <= r < upto && #[trigger] unassigned_at(links, r, j) ==> exists|g: int|
            0 <= g < buckets.len() && (#[trigger] buckets[g]).business_line@
                == repos[r].business_line@
}

/// Indices of the unassigned commits of one repository, in order.
pub fn unassigned_items(links: &Vec<ItemLink>) -> (r: Vec<usize>)
    ensures
        forall|k: int| 0 <= k < r.len() ==> (#[trigger] r@[k]) < links.len() && links@[r@[k] as int] is Unassigned,
        forall|j: int| 0 <= j < links.len() && (#[trigger] links@[j]) is Unassigned ==> r@.contains(j as usize),
        forall|k1: int, k2: int| 0 <= k1 < k2 < r.len() ==> (#[trigger] r@[k1]) < (#[trigger] r@[k2]),
{
    let mut out: Vec<usize> = Vec::new();
    let mut j: usize = 0;
    while j < links.len()
        invariant
            j <= links.len(),
            forall|k: int| 0 <= k < out.len() ==> (#[trigger] out@[k]) < j && links@[out@[k] as int] is Unassigned,
            forall|m: int| 0 <= m < j && (#[trigger] links@[m]) is Unassigned ==> out@.contains(m as usize),
            forall|k1: int, k2: int| 0 <= k1 < k2 < out.len() ==> (#[trigger] out@[k1]) < (#[trigger] out@[k2]),
        decreases links.len() - j,
    {
        let ghost old_out = out@;
        if let ItemLink::Unassigned = links[j] {
            out.push(j);
            assert(out@[out.len() - 1] == j);
        }
        proof {
            assert forall|m: int| 0 <= m < j + 1 && (#[trigger] links@[m]) is Unassigned implies out@.contains(m as usize) by {
                if m == j {
                    assert(out@[out.len() - 1] == j);
                } else {
                    assert(old_out.contains(m as usize));
                    let k = choose|k: int| 0 <= k < old_out.len() && old_out[k] == m as usize;
                    assert(out@[k] == m as usize);
                }
            }
        }
        j = j + 1;
    }
    out
}

fn positions_for(repo: usize, items: &Vec<usize>) -> (r: Vec<CommitPos>)
    ensures
        r.len() == items.len(),
        forall|k: int| 0 <= k < r.len() ==> (#[trigger] r@[k]) == (CommitPos { repo, item: items@[k] }),
{
    let mut out: Vec<CommitPos> = Vec::new();
    let mut k: usize = 0;
    while k < items.len()
        invariant
            k <= items.len(),
            out.len() == k,
            forall|m: int| 0 <= m < k ==> (#[trigger] out@[m]) == (CommitPos { repo, item: items@[m] }),
        decreases items.len() - k,
    {
        out.push(CommitPos { repo, item: items[k] });
        k = k + 1;
    }
    out
}

/// Groups the unassigned commits by the business line of their repository.
pub fn group_orphans(repos: &Vec<RepoItems>, links: &Vec<Vec<ItemLink>>) -> (r: Vec<OrphanBucket>)
    requires
        links.len() == repos.len(),
    ensures
        orphans_ok(r@, repos@, links@, repos.len() as int),
{
    let mut buckets: Vec<OrphanBucket> = Vec::new();
    let mut i: usize = 0;
    while i < repos.len()
        invariant
            i <= repos.len() == links.len(),
            orphans_ok(buckets@, repos@, links@, i as int),
        decreases repos.len() - i,
    {
        let items = unassigned_items(&links[i]);
        let ghost old_b = buckets@;
        if items.len() > 0 {
            let mut ms = positions_for(i, &items);
            let ghost new_ms = ms@;
            let mut g: usize = 0;
            while g < buckets.len() && buckets[g].business_line != repos[i].business_line
                invariant
                    g <= buckets.len(),
                    i < repos.len(),
                    buckets@ == old_b,
                    forall|h: int| 0 <= h < g ==> (#[trigger] buckets@[h]).business_line@
                        != repos@[i as int].business_line@,
                decreases buckets.len() - g,
            {
                g = g + 1;
            }
            if g < buckets.len() {
                let ghost old_members = buckets@[g as int].members@;
                buckets[g].members.append(&mut ms);
                proof {
                    let b = buckets@[g as int];
                    assert(b.members@ == old_members + new_ms);
                    assert(b.business_line@ == repos@[i as int].business_line@);
                    assert forall|k: int| 0 <= k < b.members.len() implies {
                        let m = #[trigger] b.members@[k];
                        &&& m.repo < i + 1
                        &&& unassigned_at(links@, m.repo as int, m.item as int)
                        &&& repos@[m.repo as int].business_line@ == b.business_line@
                    } by {
                        if k >= old_members.len() {
                            assert(b.members@[k] == new_ms[k - old_members.len()]);
                        } else {
                            assert(b.members@[k] == old_b[g as int].members@[k]);
                        }
                    }
                    assert forall|r: int, j: int|
                        0 <= r < i + 1 && #[trigger] unassigned_at(links@, r, j)
                            && repos@[r].business_line@ == b.business_line@ implies b.members@.contains(
                        CommitPos { repo: r as usize, item: j as usize },
                    ) by {
                        if r == i {
                            assert(links@[r]@[j] is Unassigned);
                            assert(items@.contains(j as usize));
                            let k = choose|k: int| 0 <= k < items@.len() && items@[k] == j as usize;
                            assert(b.members@[old_members.len() + k] == new_ms[k]);
                        } else {
                            assert(old_b[g as int].members@.contains(
                                CommitPos { repo: r as usize, item: j as usize },
                            ));
                            let k = choose|k: int| 0 <= k < old_members.len() && old_members[k] == CommitPos { repo: r as usize, item: j as usize };
                            assert(b.members@[k] == old_members[k]);
                        }
                    }
                    assert forall|k1: int, k2: int| 0 <= k1 < k2 < b.members.len() implies pos_lt(
                        #[trigger] b.members@[k1],
                        #[trigger] b.members@[k2],
                    ) by {
                        if k2 < old_members.len() {
                            assert(b.members@[k1] == old_members[k1]);
                            assert(b.members@[k2] == old_members[k2]);
                        } else if k1 < old_members.len() {
                            assert(b.members@[k1] == old_members[k1]);
                            assert(old_b[g as int].members@[k1].repo < i);
                            assert(b.members@[k2] == new_ms[k2 - old_members.len()]);
                        } else {
                            assert(b.members@[k1] == new_ms[k1 - old_members.len()]);
                            assert(b.members@[k2] == new_ms[k2 - old_members.len()]);
                        }
                    }
                    assert(bucket_ok(b, repos@, links@, i + 1));
                    assert forall|h: int| 0 <= h < buckets@.len() implies bucket_ok(
                        #[trigger] buckets@[h],
                        repos@,
                        links@,
                        i + 1,
                    ) by {
                        if h != g {
                            assert(buckets@[h] == old_b[h]);
                            assert(bucket_ok(old_b[h], repos@, links@, i as int));
                            assert(old_b[h].business_line@ != old_b[g as int].business_line@);
                        }
                    }
                    assert forall|r: int, j: int|
                        0 <= r < i + 1 && #[trigger] unassigned_at(links@, r, j) implies exists|h: int|
                        0 <= h < buckets@.len() && (#[trigger] buckets@[h]).business_line@
                            == repos@[r].business_line@ by {
                        if r == i {
                            assert(buckets@[g as int].business_line@ == repos@[r].business_line@);
                        } else {
                            let h = choose|h: int|
                                0 <= h < old_b.len() && (#[trigger] old_b[h]).business_line@
                                    == repos@[r].business_line@;
                            assert(buckets@[h].business_line@ == old_b[h].business_line@);
                        }
                    }
                }
            } else {
                let bl = repos[i].business_line.clone();
                buckets.push(OrphanBucket { business_line: bl, members: ms });
                proof {
                    let b = buckets@[g as int];
                    assert forall|r: int, j: int|
                        0 <= r < i + 1 && #[trigger] unassigned_at(links@, r, j)
                            && repos@[r].business_line@ == b.business_line@ implies b.members@.contains(
                        CommitPos { repo: r as usize, item: j as usize },
                    ) by {
                        if r == i {
                            assert(links@[r]@[j] is Unassigned);
                            assert(items@.contains(j as usize));
                            let k = choose|k: int| 0 <= k < items@.len() && items@[k] == j as usize;
                            assert(b.members@[k] == new_ms[k]);
                        } else {
                            let h = choose|h: int|
                                0 <= h < old_b.len() && (#[trigger] old_b[h]).business_line@
                                    == repos@[r].business_line@;
                            assert(false);
                        }
                    }
                    assert(bucket_ok(b, repos@, links@, i + 1));
                    assert forall|h: int| 0 <= h < buckets@.len() implies bucket_ok(
                        #[trigger] buckets@[h],
                        repos@,
                        links@,
                        i + 1,
                    ) by {
                        if h != g {
                            assert(buckets@[h] == old_b[h]);
                            assert(bucket_ok(old_b[h], repos@, links@, i as int));
                        }
                    }
                    assert forall|r: int, j: int|
                        0 <= r < i + 1 && #[trigger] unassigned_at(links@, r, j) implies exists|h: int|
                        0 <= h < buckets@.len() && (#[trigger] buckets@[h]).business_line@
                            == repos@[r].business_line@ by {
                        if r == i {
                            assert(buckets@[g as int].business_line@ == repos@[r].business_line@);
                        } else {
                            let h = choose|h: int|
                                0 <= h < old_b.len() && (#[trigger] old_b[h]).business_line@
                                    == repos@[r].business_line@;
                            assert(buckets@[h].business_line@ == old_b[h].business_line@);
                        }
                    }
                }
            }
        } else {
            proof {
                assert forall|h: int| 0 <= h < buckets@.len() implies bucket_ok(
                    #[trigger] buckets@[h],
                    repos@,
                    links@,
                    i + 1,
                ) by {
                    assert forall|r: int, j: int|
                        0 <= r < i + 1 && #[trigger] unassigned_at(links@, r, j)
                            && repos@[r].business_line@ == buckets@[h].business_line@ implies buckets@[h].members@.contains(
                        CommitPos { repo: r as usize, item: j as usize },
                    ) by {
                        if r == i {
                            assert(links@[r]@[j] is Unassigned);
                            assert(items@.contains(j as usize));
                        }
                    }
                }
                assert forall|r: int, j: int|
                    0 <= r < i + 1 && #[trigger] unassigned_at(links@, r, j) implies exists|h: int|
                    0 <= h < buckets@.len() && (#[trigger] buckets@[h]).business_line@
                        == repos@[r].business_line@ by {
                    if r == i {
                        assert(links@[r]@[j] is Unassigned);
                        assert(items@.contains(j as usize));
                    }
                }
            }
        }
        i = i + 1;
    }
    buckets
}

/// How a commit came to be linked to a task.
#[derive(Debug, Clone, Copy, PartialEq, Eq, Structural)]
pub enum LinkKind {
    Exact,
    Bound,
    Classified,
}

/// A commit linked to a task.
#[derive(Debug, Clone, Copy, PartialEq, Eq, Structural)]
pub struct TaskLinkEntry {
    pub pos: CommitPos,
    pub kind: LinkKind,
}

/// The commits linked to one task.
#[derive(Debug, Clone)]
pub struct TaskGroup {
    pub task_id: String,
    pub entries: Vec<TaskLinkEntry>,
}

/// How the outcome `link` ties its commit to task `t`, if it does.
pub open spec fn link_kind_for(link: ItemLink, t: Seq<char>) -> Option<LinkKind> {
    match link {
        ItemLink::Exact(v) => if strs(v).contains(t) {
            Some(LinkKind::Exact)
        } else {
            None
        },
        ItemLink::Bound(x) => if x@ == t {
            Some(LinkKind::Bound)
        } else {
            None
        },
        ItemLink::Classified(x) => if x@ == t {
            Some(LinkKind::Classified)
        } else {
            None
        },
        _ => None,
    }
}

/// Commit `j` of repository `r` is linked to task `t`.
pub open spec fn linked_at(links: Seq<Vec<ItemLink>>, r: int, j: int, t: Seq<char>) -> bool {
    0 <= r < links.len() && 0 <= j < links[r].len() && link_kind_for(links[r]@[j], t).is_some()
}

/// Author date of the commit at `p`.
pub open spec fn date_at(repos: Seq<RepoItems>, p: CommitPos) -> Seq<char> {
    repos[p.repo as int].items@[p.item as int].authored_date@
}

/// Exact links come first.
pub open spec fn kind_rank(k: LinkKind) -> int {
    if k is Exact {
        0
    } else {
        1
    }
}

/// Report order of a task's commits: exact links first, then newest first,
/// then repository-then-commit order.
pub open spec fn entry_before(a: TaskLinkEntry, b: TaskLinkEntry, repos: Seq<RepoItems>) -> bool {
    kind_rank(a.kind) < kind_rank(b.kind) || (kind_rank(a.kind) == kind_rank(b.kind) && (str_lt(
        date_at(repos, b.pos),
        date_at(repos, a.pos),
    ) || (date_at(repos, a.pos) == date_at(repos, b.pos) && pos_lt(a.pos, b.pos))))
}

proof fn lemma_entry_order(a: TaskLinkEntry, b: TaskLinkEntry, c: TaskLinkEntry, repos: Seq<RepoItems>)
    ensures
        !entry_before(a, a, repos),
        a.pos != b.pos ==> entry_before(a, b, repos) || entry_before(b, a, repos),
        !(entry_before(a, b, repos) && entry_before(b, a, repos)),
        entry_before(a, b, repos) && entry_before(b, c, repos) ==> entry_before(a, c, repos),
{
    lemma_str_lt_order(date_at(repos, a.pos), date_at(repos, b.pos), date_at(repos, c.pos));
    lemma_str_lt_order(date_at(repos, c.pos), date_at(repos, b.pos), date_at(repos, a.pos));
    lemma_str_lt_order(date_at(repos, b.pos), date_at(repos, a.pos), date_at(repos, c.pos));
    lemma_str_lt_order(date_at(repos, a.pos), date_at(repos, c.pos), date_at(repos, b.pos));
}

/// A task's group holds exactly the commits linked to it, each with how it
/// was linked, in report order.
pub open spec fn group_ok(g: TaskGroup, repos: Seq<RepoItems>, links: Seq<Vec<ItemLink>>) -> bool {
    let t = g.task_id@;
    &&& g.entries.len() > 0
    &&& forall|k: int|
        0 <= k < g.entries.len() ==> {
            let e = #[trigger] g.entries@[k];
            &&& linked_at(links, e.pos.repo as int, e.pos.item as int, t)
            &&& link_kind_for(links[e.pos.repo as int]@[e.pos.item as int], t) == Some(e.kind)
        }
    &&& forall|r: int, j: int|
        #[trigger] linked_at(links, r, j, t) ==> exists|k: int|
            0 <= k < g.entries.len() && (#[trigger] g.entries@[k]).pos == (CommitPos { repo: r as usize, item: j as usize })
    &&& forall|k1: int, k2: int|
        0 <= k1 < k2 < g.entries.len() ==> entry_before(
            #[trigger] g.entries@[k1],
            #[trigger] g.entries@[k2],
            repos,
        )
}

fn before_exec(a: &TaskLinkEntry, b: &TaskLinkEntry, repos: &Vec<RepoItems>) -> (r: bool)
    requires
        a.pos.repo < repos.len(),
        a.pos.item < repos@[a.pos.repo as int].items.len(),
        b.pos.repo < repos.len(),
        b.pos.item < repos@[b.pos.repo as int].items.len(),
    ensures
        r == entry_before(*a, *b, repos@),
{
    let ra: u8 = match a.kind {
        LinkKind::Exact => 0,
        _ => 1,
    };
    let rb: u8 = match b.kind {
        LinkKind::Exact => 0,
        _ => 1,
    };
    if ra != rb {
        return ra < rb;
    }
    let da = chars_of(repos[a.pos.repo].items[a.pos.item].authored_date.as_str());
    let db = chars_of(repos[b.pos.repo].items[b.pos.item].authored_date.as_str());
    if str_less(&db, &da) {
        return true;
    }
    if seq_eq(&da, &db) {
        return a.pos.repo < b.pos.repo || (a.pos.repo == b.pos.repo && a.pos.item < b.pos.item);
    }
    false
}

/// Inserts `e` into `out`, kept in report order.
fn insert_entry(out: &mut Vec<TaskLinkEntry>, e: TaskLinkEntry, repos: &Vec<RepoItems>)
    requires
        e.pos.repo < repos.len(),
        e.pos.item < repos@[e.pos.repo as int].items.len(),
        forall|k: int|
            0 <= k < old(out).len() ==> (#[trigger] old(out)@[k]).pos != e.pos
                && old(out)@[k].pos.repo < repos.len() && old(out)@[k].pos.item
                < repos@[old(out)@[k].pos.repo as int].items.len(),
        forall|k1: int, k2: int|
            0 <= k1 < k2 < old(out).len() ==> entry_before(
                #[trigger] old(out)@[k1],
                #[trigger] old(out)@[k2],
                repos@,
            ),
    ensures
        final(out).len() == old(out).len() + 1,
        forall|x: TaskLinkEntry| final(out)@.contains(x) <==> (old(out)@.contains(x) || x == e),
        forall|k1: int, k2: int|
            0 <= k1 < k2 < final(out).len() ==> entry_before(
                #[trigger] final(out)@[k1],
                #[trigger] final(out)@[k2],
                repos@,
            ),
{
    let mut p: usize = 0;
    while p < out.len() && !before_exec(&e, &out[p], repos)
        invariant
            p <= out.len(),
            e.pos.repo < repos.len(),
            e.pos.item < repos@[e.pos.repo as int].items.len(),
            forall|k: int| 0 <= k < p ==> !entry_before(e, #[trigger] out@[k], repos@),
            forall|k: int|
                0 <= k < out.len() ==> (#[trigger] out@[k]).pos.repo < repos.len() && out@[k].pos.item
                    < repos@[out@[k].pos.repo as int].items.len(),
        decreases out.len() - p,
    {
        p = p + 1;
    }
    let ghost old_out = out@;
    out.insert(p, e);
    proof {
        assert(out@ == old_out.insert(p as int, e));
        assert forall|x: TaskLinkEntry| out@.contains(x) <==> (old_out.contains(x) || x == e) by {
            if out@.contains(x) {
                let k = choose|k: int| 0 <= k < out@.len() && out@[k] == x;
                if k < p {
                    assert(old_out[k] == x);
                } else if k > p {
                    assert(old_out[k - 1] == x);
                }
            }
            if old_out.contains(x) {
                let k = choose|k: int| 0 <= k < old_out.len() && old_out[k] == x;
                if k < p {
                    assert(out@[k] == x);
                } else {
                    assert(out@[k + 1] == x);
                }
            }
            if x == e {
                assert(out@[p as int] == e);
            }
        }
        assert forall|k1: int, k2: int| 0 <= k1 < k2 < out.len() implies entry_before(
            #[trigger] out@[k1],
            #[trigger] out@[k2],
            repos@,
        ) by {
            if k2 < p {
                assert(out@[k1] == old_out[k1] && out@[k2] == old_out[k2]);
            } else if k2 == p {
                assert(out@[k1] == old_out[k1]);
                assert(!entry_before(e, old_out[k1], repos@));
                lemma_entry_order(old_out[k1], e, e, repos@);
            } else if k1 == p {
                assert(out@[k2] == old_out[k2 - 1]);
                assert(entry_before(e, old_out[p as int], repos@));
                if k2 - 1 > p {
                    lemma_entry_order(e, old_out[p as int], old_out[k2 - 1], repos@);
                }
            } else if k1 < p {
                assert(out@[k1] == old_out[k1] && out@[k2] == old_out[k2 - 1]);
            } else {
                assert(out@[k1] == old_out[k1 - 1] && out@[k2] == old_out[k2 - 1]);
            }
        }
    }
}

fn kind_for(link: &ItemLink, t: &String) -> (r: Option<LinkKind>)
    ensures
        r == link_kind_for(*link, t@),
{
    match link {
        ItemLink::Exact(v) => if contains_string(v, t) {
            Some(LinkKind::Exact)
        } else {
            None
        },
        ItemLink::Bound(x) => if *x == *t {
            Some(LinkKind::Bound)
        } else {
            None
        },
        ItemLink::Classified(x) => if *x == *t {
            Some(LinkKind::Classified)
        } else {
            None
        },
        _ => None,
    }
}

/// Every repository has one outcome per commit.
pub open spec fn links_shaped(repos: Seq<RepoItems>, links: Seq<Vec<ItemLink>>) -> bool {
    links.len() == repos.len() && forall|r: int|
        0 <= r < links.len() ==> (#[trigger] links[r]).len() == repos[r].items.len()
}

/// The entries of task `t`, in report order.
pub fn collect_task_entries(repos: &Vec<RepoItems>, links: &Vec<Vec<ItemLink>>, t: &String) -> (r: Vec<
    TaskLinkEntry,
>)
    requires
        links_shaped(repos@, links@),
    ensures
        forall|k: int|
            0 <= k < r.len() ==> {
                let e = #[trigger] r@[k];
                &&& linked_at(links@, e.pos.repo as int, e.pos.item as int, t@)
                &&& link_kind_for(links@[e.pos.repo as int]@[e.pos.item as int], t@) == Some(e.kind)
            },
        forall|rr: int, j: int|
            #[trigger] linked_at(links@, rr, j, t@) ==> exists|k: int|
                0 <= k < r.len() && (#[trigger] r@[k]).pos == (CommitPos { repo: rr as usize, item: j as usize }),
        forall|k1: int, k2: int|
            0 <= k1 < k2 < r.len() ==> entry_before(#[trigger] r@[k1], #[trigger] r@[k2], repos@),
{
    let mut out: Vec<TaskLinkEntry> = Vec::new();
    let mut ri: usize = 0;
    while ri < repos.len()
        invariant
            ri <= repos.len(),
            links_shaped(repos@, links@),
            forall|k: int|
                0 <= k < out.len() ==> {
                    let e = #[trigger] out@[k];
                    &&& e.pos.repo < ri
                    &&& e.pos.item < repos@[e.pos.repo as int].items.len()
                    &&& linked_at(links@, e.pos.repo as int, e.pos.item as int, t@)
                    &&& link_kind_for(links@[e.pos.repo as int]@[e.pos.item as int], t@) == Some(e.kind)
                },
            forall|rr: int, j: int|
                rr < ri && #[trigger] linked_at(links@, rr, j, t@) ==> exists|k: int|
                    0 <= k < out.len() && (#[trigger] out@[k]).pos == (CommitPos { repo: rr as usize, item: j as usize }),
            forall|k1: int, k2: int|
                0 <= k1 < k2 < out.len() ==> entry_before(#[trigger] out@[k1], #[trigger] out@[k2], repos@),
        decreases repos.len() - ri,
    {
        let mut j: usize = 0;
        while j < links[ri].len()
            invariant
                ri < repos.len(),
                j <= links@[ri as int].len(),
                links_shaped(repos@, links@),
                forall|k: int|
                    0 <= k < out.len() ==> {
                        let e = #[trigger] out@[k];
                        &&& (e.pos.repo < ri || (e.pos.repo == ri && e.pos.item < j))
                        &&& e.pos.item < repos@[e.pos.repo as int].items.len()
                        &&& linked_at(links@, e.pos.repo as int, e.pos.item as int, t@)
                        &&& link_kind_for(links@[e.pos.repo as int]@[e.pos.item as int], t@) == Some(e.kind)
                    },
                forall|rr: int, jj: int|
                    (rr < ri || (rr == ri && jj < j)) && #[trigger] linked_at(links@, rr, jj, t@) ==> exists|k: int|
                        0 <= k < out.len() && (#[trigger] out@[k]).pos == (CommitPos { repo: rr as usize, item: jj as usize }),
                forall|k1: int, k2: int|
                    0 <= k1 < k2 < out.len() ==> entry_before(#[trigger] out@[k1], #[trigger] out@[k2], repos@),
            decreases links@[ri as int].len() - j,
        {
            let ghost before = out@;
            match kind_for(&links[ri][j], t) {
                Some(kind) => {
                    let e = TaskLinkEntry { pos: CommitPos { repo: ri, item: j }, kind };
                    insert_entry(&mut out, e, repos);
                    proof {
                        assert forall|k: int| 0 <= k < out.len() implies {
                            let x = #[trigger] out@[k];
                            &&& (x.pos.repo < ri || (x.pos.repo == ri && x.pos.item < j + 1))
                            &&& x.pos.item < repos@[x.pos.repo as int].items.len()
                            &&& linked_at(links@, x.pos.repo as int, x.pos.item as int, t@)
                            &&& link_kind_for(links@[x.pos.repo as int]@[x.pos.item as int], t@) == Some(x.kind)
                        } by {
                            assert(out@.contains(out@[k]));
                            if out@[k] != e {
                                assert(before.contains(out@[k]));
                                let m = choose|m: int| 0 <= m < before.len() && before[m] == out@[k];
                                assert(before[m] == out@[k]);
                            }
                        }
                        assert forall|rr: int, jj: int|
                            (rr < ri || (rr == ri && jj < j + 1)) && #[trigger] linked_at(links@, rr, jj, t@) implies exists|k: int|
                            0 <= k < out.len() && (#[trigger] out@[k]).pos == (CommitPos { repo: rr as usize, item: jj as usize }) by {
                            if rr == ri && jj == j {
                                assert(out@.contains(e));
                                let k = choose|k: int| 0 <= k < out@.len() && out@[k] == e;
                                assert(out@[k].pos == e.pos);
                            } else {
                                let m = choose|m: int| 0 <= m < before.len() && (#[trigger] before[m]).pos == (CommitPos { repo: rr as usize, item: jj as usize });
                                assert(before.contains(before[m]));
                                assert(out@.contains(before[m]));
                                let k = choose|k: int| 0 <= k < out@.len() && out@[k] == before[m];
                                assert(out@[k].pos == before[m].pos);
                            }
                        }
                    }
                },
                None => {
                    proof {
                        assert forall|rr: int, jj: int|
                            (rr < ri || (rr == ri && jj < j + 1)) && #[trigger] linked_at(links@, rr, jj, t@) implies exists|k: int|
                            0 <= k < out.len() && (#[trigger] out@[k]).pos == (CommitPos { repo: rr as usize, item: jj as usize }) by {
                            if rr == ri && jj == j {
                                assert(false);
                            }
                        }
                    }
                },
            }
            j = j + 1;
        }
        ri = ri + 1;
    }
    out
}

/// One group per active task with at least one linked commit (in no
/// particular order); no task twice.
pub open spec fn task_groups_ok(
    gs: Seq<TaskGroup>,
    tasks: Seq<Seq<char>>,
    repos: Seq<RepoItems>,
    links: Seq<Vec<ItemLink>>,
) -> bool {
    &&& forall|g: int|
        0 <= g < gs.len() ==> group_ok(#[trigger] gs[g], repos, links) && tasks.contains(
            gs[g].task_id@,
        )
    &&& forall|g1: int, g2: int|
        0 <= g1 < g2 < gs.len() ==> (#[trigger] gs[g1]).task_id@ != (#[trigger] gs[g2]).task_id@
    &&& forall|i: int, r: int, j: int|
        0 <= i < tasks.len() && #[trigger] linked_at(links, r, j, tasks[i]) ==> exists|g: int|
            0 <= g < gs.len() && (#[trigger] gs[g]).task_id@ == tasks[i]
}

/// Groups the linked commits by task, each group in report order.
pub fn group_task_links(repos: &Vec<RepoItems>, links: &Vec<Vec<ItemLink>>, tasks: &Vec<String>) -> (r: Vec<
    TaskGroup,
>)
    requires
        links_shaped(repos@, links@),
    ensures
        task_groups_ok(r@, strs(*tasks), repos@, links@),
{
    let mut groups: Vec<TaskGroup> = Vec::new();
    let mut ti: usize = 0;
    while ti < tasks.len()
        invariant
            ti <= tasks.len(),
            links_shaped(repos@, links@),
            forall|g: int|
                0 <= g < groups.len() ==> group_ok(#[trigger] groups@[g], repos@, links@)
                    && strs(*tasks).contains(groups@[g].task_id@),
            forall|g1: int, g2: int|
                0 <= g1 < g2 < groups.len() ==> (#[trigger] groups@[g1]).task_id@
                    != (#[trigger] groups@[g2]).task_id@,
            forall|i: int, rr: int, j: int|
                0 <= i < ti && #[trigger] linked_at(links@, rr, j, strs(*tasks)[i]) ==> exists|g: int|
                    0 <= g < groups.len() && (#[trigger] groups@[g]).task_id@ == strs(*tasks)[i],
        decreases tasks.len() - ti,
    {
        let t = &tasks[ti];
        assert(strs(*tasks)[ti as int] == t@);
        let mut g: usize = 0;
        while g < groups.len() && groups[g].task_id != *t
            invariant
                g <= groups.len(),
                forall|h: int| 0 <= h < g ==> (#[trigger] groups@[h]).task_id@ != t@,
            decreases groups.len() - g,
        {
            g = g + 1;
        }
        if g == groups.len() {
            let entries = collect_task_entries(repos, links, t);
            if entries.len() > 0 {
                let ghost old_g = groups@;
                groups.push(TaskGroup { task_id: t.clone(), entries });
                proof {
                    assert(group_ok(groups@[old_g.len() as int], repos@, links@));
                    assert(strs(*tasks).contains(t@));
                    assert forall|gg: int| 0 <= gg < groups.len() implies group_ok(
                        #[trigger] groups@[gg],
                        repos@,
                        links@,
                    ) && strs(*tasks).contains(groups@[gg].task_id@) by {
                        if gg < old_g.len() {
                            assert(groups@[gg] == old_g[gg]);
                        }
                    }
                    assert forall|i: int, rr: int, j: int|
                        0 <= i < ti + 1 && #[trigger] linked_at(links@, rr, j, strs(*tasks)[i]) implies exists|gg: int|
                        0 <= gg < groups.len() && (#[trigger] groups@[gg]).task_id@ == strs(*tasks)[i] by {
                        if i == ti {
                            assert(groups@[old_g.len() as int].task_id@ == strs(*tasks)[i]);
                        } else {
                            let gg = choose|gg: int|
                                0 <= gg < old_g.len() && (#[trigger] old_g[gg]).task_id@ == strs(*tasks)[i];
                            assert(groups@[gg] == old_g[gg]);
                        }
                    }
                }
            } else {
                proof {
                    assert forall|i: int, rr: int, j: int|
                        0 <= i < ti + 1 && #[trigger] linked_at(links@, rr, j, strs(*tasks)[i]) implies exists|gg: int|
                        0 <= gg < groups.len() && (#[trigger] groups@[gg]).task_id@ == strs(*tasks)[i] by {
                        if i == ti {
                            let k = choose|k: int| 0 <= k < entries.len() && (#[trigger] entries@[k]).pos == (CommitPos { repo: rr as usize, item: j as usize });
                            assert(false);
                        }
                    }
                }
            }
        } else {
            proof {
                assert forall|i: int, rr: int, j: int|
                    0 <= i < ti + 1 && #[trigger] linked_at(links@, rr, j, strs(*tasks)[i]) implies exists|gg: int|
                    0 <= gg < groups.len() && (#[trigger] groups@[gg]).task_id@ == strs(*tasks)[i] by {
                    if i == ti {
                        assert(groups@[g as int].task_id@ == strs(*tasks)[i]);
                    }
                }
            }
        }
        ti = ti + 1;
    }
    groups
}

/// The first occurrence of each entry of `s`, in order.
pub open spec fn dedup(s: Seq<Seq<char>>) -> Seq<Seq<char>>
    decreases s.len(),
{
    if s.len() == 0 {
        s
    } else {
        let r = dedup(s.drop_last());
        if r.contains(s.last()) {
            r
        } else {
            r.push(s.last())
        }
    }
}

/// Drops repeated task numbers, keeping the first occurrence of each.
pub fn dedup_ids(found: &Vec<String>) -> (r: Vec<String>)
    ensures
        strs(r) == dedup(strs(*found)),
{
    let mut out: Vec<String> = Vec::new();
    let mut i: usize = 0;
    assert(strs(*found).take(0) =~= Seq::<Seq<char>>::empty());
    while i < found.len()
        invariant
            i <= found.len(),
            strs(out) == dedup(strs(*found).take(i as int)),
        decreases found.len() - i,
    {
        assert(strs(*found).take(i + 1).drop_last() =~= strs(*found).take(i as int));
        if !contains_string(&out, &found[i]) {
            out.push(found[i].clone());
        }
        i = i + 1;
        assert(strs(out) =~= dedup(strs(*found).take(i as int)));
    }
    assert(strs(*found).take(found.len() as int) =~= strs(*found));
    out
}

/// A `#1234` reference.
pub open spec fn hash_ref_pattern() -> Seq<char> {
    "#(\\d{3,7})\\b"@
}

/// A `task-1234` / `task 1234` / `task#1234` reference, any case.
pub open spec fn task_ref_pattern() -> Seq<char> {
    "(?i)\\btask[-_\\s]?#?(\\d{3,7})\\b"@
}

/// A `zentao-1234` reference, any case.
pub open spec fn zentao_ref_pattern() -> Seq<char> {
    "(?i)\\bzentao[-_\\s]?#?(\\d{3,7})\\b"@
}

/// What the `regex` crate finds as the first capture group of each
/// successive match of `pattern` in `text`.
pub uninterp spec fn regex_group1_matches(pattern: Seq<char>, text: Seq<char>) -> Seq<Seq<char>>;

/// `Regex::new(pattern)` and `captures_iter(text)`, taking group 1 of every
/// match. Only the three task-reference patterns are passed; each compiles and
/// its group 1 takes part in every match. The result is named, not stated.
#[verifier::external_body]
fn regex_group1_all(pattern: &str, text: &str) -> (r: Vec<String>)
    requires
        pattern@ == hash_ref_pattern() || pattern@ == task_ref_pattern() || pattern@
            == zentao_ref_pattern(),
    ensures
        strs(r) == regex_group1_matches(pattern@, text@),
{
    let re = regex::Regex::new(pattern).unwrap();
    re.captures_iter(text).map(|c| c[1].to_string()).collect()
}

/// The text searched for task numbers: title, a line break, the body.
pub open spec fn message_text(c: LocalCommit) -> Seq<char> {
    c.title@ + "\n"@ + match c.body {
        Some(b) => b@,
        None => Seq::empty(),
    }
}

/// Task numbers a commit message names (`#1234`, `task-1234`,
/// `zentao 1234`), each once, in the order the three forms are searched.
pub open spec fn task_ids_spec(c: LocalCommit) -> Seq<Seq<char>> {
    let t = message_text(c);
    dedup(regex_group1_matches(hash_ref_pattern(), t) + regex_group1_matches(task_ref_pattern(), t)
        + regex_group1_matches(zentao_ref_pattern(), t))
}

proof fn lemma_dedup_members(s: Seq<Seq<char>>)
    ensures
        forall|x: Seq<char>| #[trigger] dedup(s).contains(x) <==> s.contains(x),
        forall|i: int, j: int| 0 <= i < j < dedup(s).len() ==> dedup(s)[i] != dedup(s)[j],
    decreases s.len(),
{
    if s.len() > 0 {
        let init = s.drop_last();
        let last = s.last();
        lemma_dedup_members(init);
        let r = dedup(init);
        let d = dedup(s);
        assert forall|x: Seq<char>| #[trigger] d.contains(x) <==> s.contains(x) by {
            if s.contains(x) {
                let k = choose|k: int| 0 <= k < s.len() && s[k] == x;
                if k < s.len() - 1 {
                    assert(init[k] == x);
                    assert(init.contains(x));
                    assert(r.contains(x));
                    let m = choose|m: int| 0 <= m < r.len() && r[m] == x;
                    if !r.contains(last) {
                        assert(r.push(last)[m] == x);
                    }
                } else {
                    assert(x == last);
                    if !r.contains(last) {
                        assert(r.push(last)[r.len() as int] == x);
                    }
                }
                assert(d.contains(x));
            }
            if d.contains(x) {
                let k = choose|k: int| 0 <= k < d.len() && d[k] == x;
                if r.contains(last) {
                    assert(r.contains(x));
                } else if k < r.len() {
                    assert(r[k] == x);
                    assert(r.contains(x));
                }
                if r.contains(x) {
                    assert(init.contains(x));
                    let m = choose|m: int| 0 <= m < init.len() && init[m] == x;
                    assert(s[m] == x);
                } else {
                    assert(x == last);
                    assert(s[s.len() - 1] == x);
                }
            }
        }
        if !r.contains(last) {
            assert forall|i: int, j: int| 0 <= i < j < d.len() implies d[i] != d[j] by {
                if j == r.len() {
                    assert(d[j] == last);
                    assert(d[i] == r[i]);
                    if r[i] == last {
                        assert(r.contains(last));
                    }
                } else {
                    assert(d[i] == r[i] && d[j] == r[j]);
                }
            }
        }
    }
}

/// The task numbers of a commit are exactly the numbers that a `#1234`,
/// `task-1234` (or `task 1234`, `task#1234`, any case) or `zentao-1234`
/// reference names in its title and body (title, a line break, body), each
/// once.
pub proof fn lemma_task_ids_named(c: LocalCommit)
    ensures
        ({
            let t = c.title@ + "\n"@ + match c.body {
                Some(b) => b@,
                None => Seq::<char>::empty(),
            };
            let found = regex_group1_matches("#(\\d{3,7})\\b"@, t) + regex_group1_matches(
                "(?i)\\btask[-_\\s]?#?(\\d{3,7})\\b"@,
                t,
            ) + regex_group1_matches("(?i)\\bzentao[-_\\s]?#?(\\d{3,7})\\b"@, t);
            &&& forall|x: Seq<char>| #[trigger] task_ids_spec(c).contains(x) <==> found.contains(x)
            &&& forall|i: int, j: int|
                0 <= i < j < task_ids_spec(c).len() ==> task_ids_spec(c)[i] != task_ids_spec(c)[j]
        }),
{
    let t = message_text(c);
    lemma_dedup_members(
        regex_group1_matches(hash_ref_pattern(), t) + regex_group1_matches(task_ref_pattern(), t)
            + regex_group1_matches(zentao_ref_pattern(), t),
    );
}

/// The task numbers written in a commit's message.
pub fn extract_task_ids_from_message(commit: &LocalCommit) -> (r: Vec<String>)
    ensures
        strs(r) == task_ids_spec(*commit),
{
    let mut text = commit.title.clone();
    push_str(&mut text, "\n");
    match &commit.body {
        Some(b) => push_str(&mut text, b.as_str()),
        None => {},
    }
    assert(text@ =~= message_text(*commit));
    let mut found = regex_group1_all("#(\\d{3,7})\\b", text.as_str());
    let mut second = regex_group1_all("(?i)\\btask[-_\\s]?#?(\\d{3,7})\\b", text.as_str());
    let mut third = regex_group1_all("(?i)\\bzentao[-_\\s]?#?(\\d{3,7})\\b", text.as_str());
    let ghost a = strs(found);
    let ghost b = strs(second);
    let ghost c = strs(third);
    found.append(&mut second);
    assert(strs(found) =~= a + b);
    found.append(&mut third);
    assert(strs(found) =~= a + b + c);
    dedup_ids(&found)
}

/// The tasks an outcome names are all active (and an exact outcome names at
/// least one); a pending outcome fails this.
pub open spec fn names_active(link: ItemLink, tasks: Seq<Seq<char>>) -> bool {
    match link {
        ItemLink::Exact(v) => strs(v).len() > 0 && forall|k: int|
            0 <= k < strs(v).len() ==> tasks.contains(#[trigger] strs(v)[k]),
        ItemLink::Bound(t) => tasks.contains(t@),
        ItemLink::Classified(t) => tasks.contains(t@),
        ItemLink::Unassigned => true,
        ItemLink::Pending => false,
    }
}

/// Position of the first entry of `keys` equal to `x`, from `from` on.
pub open spec fn first_key(keys: Seq<Seq<char>>, x: Seq<char>, from: int) -> Option<int>
    decreases keys.len() - from,
{
    if from < 0 || from >= keys.len() {
        None
    } else if keys[from] == x {
        Some(from)
    } else {
        first_key(keys, x, from + 1)
    }
}

/// The classifier's answer for a commit among the shas it answered for: the
/// prompt shows each commit's short sha and asks for it back, so an answer
/// under the short sha is taken, else one under the full sha.
pub open spec fn answer_for_spec(keys: Seq<Seq<char>>, sha: Seq<char>, short_sha: Seq<char>) -> Option<int> {
    match first_key(keys, short_sha, 0) {
        Some(k) => Some(k),
        None => first_key(keys, sha, 0),
    }
}

fn first_key_exec(keys: &Vec<String>, x: &str) -> (r: Option<usize>)
    ensures
        match r {
            Some(k) => first_key(strs(*keys), x@, 0) == Some(k as int) && k < keys.len(),
            None => first_key(strs(*keys), x@, 0).is_none(),
        },
{
    let xv = crate::text::chars_of(x);
    let mut i: usize = 0;
    while i < keys.len()
        invariant
            i <= keys.len(),
            xv@ == x@,
            first_key(strs(*keys), x@, 0) == first_key(strs(*keys), x@, i as int),
        decreases keys.len() - i,
    {
        if crate::text::seq_eq(&crate::text::chars_of(keys[i].as_str()), &xv) {
            return Some(i);
        }
        i = i + 1;
    }
    None
}

/// Where the classifier's answer for a commit is among the answered shas.
pub fn answer_for_commit(keys: &Vec<String>, sha: &str, short_sha: &str) -> (r: Option<usize>)
    ensures
        match r {
            Some(k) => answer_for_spec(strs(*keys), sha@, short_sha@) == Some(k as int) && k < keys.len(),
            None => answer_for_spec(strs(*keys), sha@, short_sha@).is_none(),
        },
{
    match first_key_exec(keys, short_sha) {
        Some(k) => Some(k),
        None => first_key_exec(keys, sha),
    }
}

/// Number of commits in the first `n` repositories.
pub open spec fn items_total(repos: Seq<RepoItems>, n: int) -> int
    decreases n,
{
    if n <= 0 || n > repos.len() {
        0
    } else {
        items_total(repos, n - 1) + repos[n - 1].items.len()
    }
}

proof fn lemma_items_total_grows(repos: Seq<RepoItems>, m: int, n: int)
    requires
        0 <= m <= n <= repos.len(),
    ensures
        items_total(repos, m) <= items_total(repos, n),
    decreases n - m,
{
    if m < n {
        lemma_items_total_grows(repos, m, n - 1);
    }
}

/// The number of commits the linking covers: all commits of the
/// repositories kept.
pub fn count_items(repos: &Vec<RepoItems>) -> (r: usize)
    requires
        items_total(repos@, repos.len() as int) <= usize::MAX,
    ensures
        r == items_total(repos@, repos.len() as int),
{
    let mut total: usize = 0;
    let mut i: usize = 0;
    while i < repos.len()
        invariant
            i <= repos.len(),
            total == items_total(repos@, i as int),
            items_total(repos@, repos.len() as int) <= usize::MAX,
        decreases repos.len() - i,
    {
        proof {
            lemma_items_total_grows(repos@, i + 1, repos.len() as int);
        }
        total = total + repos[i].items.len();
        i = i + 1;
    }
    total
}

/// A repository is left out of the linking when its business line is one of
/// the excluded lines.
pub fn is_excluded_line(line: &str, excluded: &Vec<String>) -> (r: bool)
    ensures
        r == strs(*excluded).contains(line@),
{
    let lv = crate::text::chars_of(line);
    let mut i: usize = 0;
    while i < excluded.len()
        invariant
            i <= excluded.len(),
            lv@ == line@,
            forall|k: int| 0 <= k < i ==> excluded@[k]@ != line@,
        decreases excluded.len() - i,
    {
        if crate::text::seq_eq(&crate::text::chars_of(excluded[i].as_str()), &lv) {
            assert(strs(*excluded)[i as int] == line@);
            return true;
        }
        i = i + 1;
    }
    assert(!strs(*excluded).contains(line@)) by {
        if strs(*excluded).contains(line@) {
            let k = choose|k: int| 0 <= k < strs(*excluded).len() && strs(*excluded)[k] == line@;
            assert(excluded@[k]@ == line@);
        }
    }
    false
}

/// Once every commit is decided and its outcome names active tasks, each
/// commit is reported in exactly one way: in a task group when it is linked,
/// in a business-line bucket when it is not, never both.
pub proof fn lemma_commit_placed_once(
    repos: Seq<RepoItems>,
    links: Seq<Vec<ItemLink>>,
    tasks: Seq<Seq<char>>,
    groups: Seq<TaskGroup>,
    buckets: Seq<OrphanBucket>,
    r: int,
    j: int,
)
    requires
        links_shaped(repos, links),
        task_groups_ok(groups, tasks, repos, links),
        orphans_ok(buckets, repos, links, repos.len() as int),
        0 <= r < links.len(),
        0 <= j < links[r].len(),
        names_active(links[r]@[j], tasks),
    ensures
        (exists|g: int, k: int|
            0 <= g < groups.len() && 0 <= k < groups[g].entries.len() && (#[trigger] groups[g].entries@[k]).pos
                == (CommitPos { repo: r as usize, item: j as usize })) <==> !(links[r]@[j] is Unassigned),
        (exists|b: int| 0 <= b < buckets.len() && (#[trigger] buckets[b]).members@.contains(
            CommitPos { repo: r as usize, item: j as usize },
        )) <==> links[r]@[j] is Unassigned,
{
    let p = CommitPos { repo: r as usize, item: j as usize };
    let link = links[r]@[j];
    if !(link is Unassigned) {
        let t = match link {
            ItemLink::Exact(v) => strs(v)[0],
            ItemLink::Bound(x) => x@,
            ItemLink::Classified(x) => x@,
            _ => Seq::empty(),
        };
        assert(tasks.contains(t));
        assert(link_kind_for(link, t).is_some());
        assert(linked_at(links, r, j, t));
        let i = choose|i: int| 0 <= i < tasks.len() && tasks[i] == t;
        assert(linked_at(links, r, j, tasks[i]));
        let g = choose|g: int| 0 <= g < groups.len() && (#[trigger] groups[g]).task_id@ == tasks[i];
        assert(group_ok(groups[g], repos, links));
        let k = choose|k: int|
            0 <= k < groups[g].entries.len() && (#[trigger] groups[g].entries@[k]).pos == p;
        assert(groups[g].entries@[k].pos == p);
        assert forall|b: int| 0 <= b < buckets.len() implies !(#[trigger] buckets[b]).members@.contains(p) by {
            assert(bucket_ok(buckets[b], repos, links, repos.len() as int));
            if buckets[b].members@.contains(p) {
                let m = choose|m: int| 0 <= m < buckets[b].members@.len() && buckets[b].members@[m] == p;
                assert(unassigned_at(links, p.repo as int, p.item as int));
            }
        }
    } else {
        assert(unassigned_at(links, r, j));
        let b = choose|b: int|
            0 <= b < buckets.len() && (#[trigger] buckets[b]).business_line@ == repos[r].business_line@;
        assert(bucket_ok(buckets[b], repos, links, repos.len() as int));
        assert(buckets[b].members@.contains(p));
        assert forall|g: int, k: int|
            0 <= g < groups.len() && 0 <= k < groups[g].entries.len() implies (#[trigger] groups[g].entries@[k]).pos
                != p by {
            assert(group_ok(groups[g], repos, links));
            let e = groups[g].entries@[k];
            assert(linked_at(links, e.pos.repo as int, e.pos.item as int, groups[g].task_id@));
        }
    }
}

proof fn lemma_keep_known_active(ids: Seq<Seq<char>>, tasks: Seq<Seq<char>>)
    ensures
        forall|k: int|
            0 <= k < keep_known(ids, tasks).len() ==> tasks.contains(#[trigger] keep_known(ids, tasks)[k]),
    decreases ids.len(),
{
    if ids.len() > 0 {
        lemma_keep_known_active(ids.drop_last(), tasks);
        let r = keep_known(ids.drop_last(), tasks);
        assert forall|k: int|
            0 <= k < keep_known(ids, tasks).len() implies tasks.contains(#[trigger] keep_known(ids, tasks)[k]) by {
            if k < r.len() {
                assert(keep_known(ids, tasks)[k] == r[k]);
            }
        }
    }
}

/// The first-pass outcomes of every commit, as `plan_links` gives them.
pub open spec fn planned_for(
    planned: Seq<Vec<ItemLink>>,
    repos: Seq<RepoItems>,
    tasks: Seq<Seq<char>>,
    use_llm: bool,
) -> bool {
    &&& planned.len() == repos.len()
    &&& forall|i: int|
        0 <= i < planned.len() ==> (#[trigger] planned[i]).len() == repos[i].items.len() && forall|j: int|
            0 <= j < planned[i].len() ==> plan_matches(
                #[trigger] planned[i]@[j],
                strs(repos[i].items@[j].task_ids),
                keep_known(strs(repos[i].bound_task_ids), tasks),
                tasks,
                use_llm,
            )
}

/// The outcomes once each repository's verdicts are applied, as
/// `apply_verdicts` leaves them (a repository with nothing pending keeps
/// its outcomes, which is what an empty list of verdicts gives).
pub open spec fn decided_from(
    links: Seq<Vec<ItemLink>>,
    planned: Seq<Vec<ItemLink>>,
    verdicts: Seq<Seq<Option<Seq<char>>>>,
) -> bool {
    &&& links.len() == planned.len() == verdicts.len()
    &&& forall|i: int|
        0 <= i < links.len() ==> (#[trigger] links[i]).len() == planned[i].len() && forall|j: int|
            0 <= j < links[i].len() ==> verdict_applied(
                planned[i]@[j],
                #[trigger] links[i]@[j],
                pending_before(planned[i]@, j),
                verdicts[i],
            )
}

/// The whole linking: whatever the classifier answers (as long as it names
/// only active tasks, which it does by picking among the candidates), once
/// the first pass, the verdicts and the grouping are done every commit of
/// the repositories in scope is reported exactly once: in a task group when
/// it is linked, in its business line's orphan bucket when it is not. Their
/// number is `items_total` (what `count_items` returns).
pub proof fn lemma_link_flow(
    repos: Seq<RepoItems>,
    tasks: Seq<Seq<char>>,
    use_llm: bool,
    planned: Seq<Vec<ItemLink>>,
    verdicts: Seq<Seq<Option<Seq<char>>>>,
    links: Seq<Vec<ItemLink>>,
    groups: Seq<TaskGroup>,
    buckets: Seq<OrphanBucket>,
    r: int,
    j: int,
)
    requires
        planned_for(planned, repos, tasks, use_llm),
        decided_from(links, planned, verdicts),
        forall|i: int, k: int|
            0 <= i < verdicts.len() && 0 <= k < verdicts[i].len() && (#[trigger] verdicts[i][k]).is_some()
                ==> tasks.contains(verdicts[i][k].unwrap()),
        task_groups_ok(groups, tasks, repos, links),
        orphans_ok(buckets, repos, links, repos.len() as int),
        0 <= r < repos.len(),
        0 <= j < repos[r].items.len(),
    ensures
        (exists|g: int, k: int|
            0 <= g < groups.len() && 0 <= k < groups[g].entries.len() && (#[trigger] groups[g].entries@[k]).pos
                == (CommitPos { repo: r as usize, item: j as usize })) <==> !(links[r]@[j] is Unassigned),
        (exists|b: int| 0 <= b < buckets.len() && (#[trigger] buckets[b]).members@.contains(
            CommitPos { repo: r as usize, item: j as usize },
        )) <==> links[r]@[j] is Unassigned,
{
    assert(links_shaped(repos, links)) by {
        assert forall|i: int| 0 <= i < links.len() implies (#[trigger] links[i]).len() == repos[i].items.len() by {
            assert(planned[i].len() == repos[i].items.len());
        }
    }
    assert(planned[r].len() == repos[r].items.len());
    assert(links[r].len() == planned[r].len());
    let before = planned[r]@[j];
    let after = links[r]@[j];
    assert(plan_matches(
        before,
        strs(repos[r].items@[j].task_ids),
        keep_known(strs(repos[r].bound_task_ids), tasks),
        tasks,
        use_llm,
    ));
    lemma_plan_names_active(before, strs(repos[r].items@[j].task_ids), strs(repos[r].bound_task_ids), tasks, use_llm);
    assert(verdict_applied(before, after, pending_before(planned[r]@, j), verdicts[r]));
    if before is Pending {
        let rank = pending_before(planned[r]@, j);
        if rank < verdicts[r].len() && verdicts[r][rank as int].is_some() {
            assert(tasks.contains(verdicts[r][rank as int].unwrap()));
        }
    }
    assert(names_active(after, tasks));
    lemma_commit_placed_once(repos, links, tasks, groups, buckets, r, j);
}

proof fn lemma_keep_known_is_filter(ids: Seq<Seq<char>>, tasks: Seq<Seq<char>>)
    ensures
        keep_known(ids, tasks) == ids.filter(|x: Seq<char>| tasks.contains(x)),
    decreases ids.len(),
{
    reveal(Seq::filter);
    if ids.len() > 0 {
        lemma_keep_known_is_filter(ids.drop_last(), tasks);
    }
}

/// How a commit is first placed, in order of precedence: when its message
/// names active tasks it is linked exactly to those (in the order named);
/// otherwise, when its repository is bound to exactly one active task, to
/// that task; otherwise, when it is bound to several and the classifier may
/// be used, it waits for the classifier; otherwise it belongs to no task.
pub proof fn lemma_plan_precedence(
    link: ItemLink,
    ids: Seq<Seq<char>>,
    bound: Seq<Seq<char>>,
    tasks: Seq<Seq<char>>,
    use_llm: bool,
)
    requires
        plan_matches(link, ids, keep_known(bound, tasks), tasks, use_llm),
    ensures
        ({
            let named = ids.filter(|x: Seq<char>| tasks.contains(x));
            let cands = bound.filter(|x: Seq<char>| tasks.contains(x));
            &&& named.len() > 0 ==> (link matches ItemLink::Exact(v) && strs(v) == named)
            &&& named.len() == 0 && cands.len() == 1 ==> (link matches ItemLink::Bound(t) && t@ == cands[0])
            &&& named.len() == 0 && cands.len() > 1 && use_llm ==> link is Pending
            &&& named.len() == 0 && (cands.len() == 0 || (cands.len() > 1 && !use_llm)) ==> link is Unassigned
        }),
{
    lemma_keep_known_is_filter(ids, tasks);
    lemma_keep_known_is_filter(bound, tasks);
}

/// A first-pass outcome that is not pending only names active tasks: exact
/// links go to active tasks named in the message, a bound link to the single
/// active task bound to the repository.
pub proof fn lemma_plan_names_active(
    link: ItemLink,
    ids: Seq<Seq<char>>,
    bound: Seq<Seq<char>>,
    tasks: Seq<Seq<char>>,
    use_llm: bool,
)
    requires
        plan_matches(link, ids, keep_known(bound, tasks), tasks, use_llm),
    ensures
        link is Pending || names_active(link, tasks),
        link matches ItemLink::Exact(v) ==> forall|k: int|
            0 <= k < strs(v).len() ==> ids.contains(#[trigger] strs(v)[k]),
{
    lemma_keep_known_active(ids, tasks);
    lemma_keep_known_active(bound, tasks);
    lemma_keep_known_from(ids, tasks);
    if keep_known(ids, tasks).len() == 0 && keep_known(bound, tasks).len() == 1 {
        assert(tasks.contains(keep_known(bound, tasks)[0]));
    }
}

proof fn lemma_keep_known_from(ids: Seq<Seq<char>>, tasks: Seq<Seq<char>>)
    ensures
        forall|k: int|
            0 <= k < keep_known(ids, tasks).len() ==> ids.contains(#[trigger] keep_known(ids, tasks)[k]),
    decreases ids.len(),
{
    if ids.len() > 0 {
        lemma_keep_known_from(ids.drop_last(), tasks);
        let r = keep_known(ids.drop_last(), tasks);
        assert forall|k: int|
            0 <= k < keep_known(ids, tasks).len() implies ids.contains(#[trigger] keep_known(ids, tasks)[k]) by {
            if k < r.len() {
                assert(keep_known(ids, tasks)[k] == r[k]);
                let m = choose|m: int| 0 <= m < ids.drop_last().len() && ids.drop_last()[m] == r[k];
                assert(ids[m] == r[k]);
            } else {
                assert(ids[ids.len() - 1] == ids.last());
            }
        }
    }
}

} // verus!
