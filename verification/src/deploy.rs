//! Deploy settings: Jenkins credentials and projects as the settings page
//! edits them, their validation, the key-store account and environment
//! variable names derived from a credential name, and the Jenkins MCP server
//! configuration built from them.

use vstd::prelude::*;
use crate::channels::is_ascii_alnum;
use crate::commit_link::strs;
use crate::text::{
    chars_of, lemma_str_lt_order, str_less, str_lt, lowercase_of, owned, push_str, string_of, to_lowercase, to_uppercase, trim,
    trim_chars, trim_seq, uppercase_of,
};

verus! {

/// A Jenkins job and the alias it is deployed by in chat.
#[derive(Debug, Clone)]
pub struct ProjectInput {
    pub job: String,
    pub alias: String,
}

/// A Jenkins account with its projects. `token` is set only when the user
/// entered a new one.
#[derive(Debug, Clone)]
pub struct CredentialInput {
    pub name: String,
    pub username: String,
    pub token: Option<String>,
    pub projects: Vec<ProjectInput>,
}

/// Key-store account of a credential's token: `jenkins-<name>-token`, the
/// name trimmed and lower-cased.
pub fn token_keychain_account(name: &str) -> (r: String)
    ensures
        r@ == "jenkins-"@ + lowercase_of(trim_seq(name@)) + "-token"@,
{
    let lower = to_lowercase(trim(name).as_str());
    keychain_account_for(lower.as_str())
}

/// The key-store account for a name already trimmed and lower-cased.
pub fn keychain_account_for(lower: &str) -> (r: String)
    ensures
        r@ == "jenkins-"@ + lower@ + "-token"@,
{
    let mut r = owned("jenkins-");
    push_str(&mut r, lower);
    push_str(&mut r, "-token");
    r
}

/// Environment-variable prefix of a credential: `JENKINS_ENV_<NAME>_`, the
/// name trimmed and upper-cased.
pub fn env_key_prefix(name: &str) -> (r: String)
    ensures
        r@ == "JENKINS_ENV_"@ + uppercase_of(trim_seq(name@)) + "_"@,
{
    let upper = to_uppercase(trim(name).as_str());
    env_prefix_for(upper.as_str())
}

/// The environment-variable prefix for a name already trimmed and upper-cased.
pub fn env_prefix_for(upper: &str) -> (r: String)
    ensures
        r@ == "JENKINS_ENV_"@ + upper@ + "_"@,
{
    let mut r = owned("JENKINS_ENV_");
    push_str(&mut r, upper);
    push_str(&mut r, "_");
    r
}

/// A credential name is valid when, trimmed, it is non-empty and made of
/// ASCII letters, digits and `-`.
pub open spec fn name_chars_ok(n: Seq<char>) -> bool {
    forall|k: int| 0 <= k < n.len() ==> is_ascii_alnum(#[trigger] n[k]) || n[k] == '-'
}

/// Checks a credential name.
pub fn validate_credential_name(name: &str) -> (r: Result<(), String>)
    ensures
        ({
            let n = trim_seq(name@);
            if n.len() == 0 {
                r.is_err() && r->Err_0@ == "凭据名不能为空"@
            } else if !name_chars_ok(n) {
                r.is_err() && r->Err_0@ == "凭据名 '"@ + n + "' 只能包含字母、数字和连字符(-)"@
            } else {
                r.is_ok()
            }
        }),
{
    let n = trim_chars(&chars_of(name));
    if n.len() == 0 {
        return Err(owned("凭据名不能为空"));
    }
    let mut k: usize = 0;
    while k < n.len()
        invariant
            k <= n.len(),
            n@ == trim_seq(name@),
            n.len() > 0,
            forall|m: int| 0 <= m < k ==> is_ascii_alnum(#[trigger] n@[m]) || n@[m] == '-',
        decreases n.len() - k,
    {
        let c = n[k];
        if !(('0' <= c && c <= '9') || ('a' <= c && c <= 'z') || ('A' <= c && c <= 'Z') || c == '-') {
            assert(!(is_ascii_alnum(n@[k as int]) || n@[k as int] == '-'));
            assert(!name_chars_ok(n@));
            let mut msg = owned("凭据名 '");
            let ns = string_of(&n);
            push_str(&mut msg, ns.as_str());
            push_str(&mut msg, "' 只能包含字母、数字和连字符(-)");
            assert(msg@ =~= "凭据名 '"@ + n@ + "' 只能包含字母、数字和连字符(-)"@);
            assert(n@.len() > 0);
            return Err(msg);
        }
        k = k + 1;
    }
    Ok(())
}

/// The first project (credentials in order, then projects in order) whose
/// alias is blank, as `(credential index, project index)`.
pub open spec fn first_blank_alias(creds: Seq<CredentialInput>) -> Option<(int, int)>
    decreases creds.len(),
{
    if creds.len() == 0 {
        None
    } else {
        match first_blank_alias(creds.drop_last()) {
            Some(p) => Some(p),
            None => match first_blank_in(creds.last().projects@, 0) {
                Some(j) => Some(((creds.len() - 1) as int, j)),
                None => None,
            },
        }
    }
}

/// Index of the first project at or after `j` with a blank alias.
pub open spec fn first_blank_in(ps: Seq<ProjectInput>, j: int) -> Option<int>
    decreases ps.len() - j,
{
    if j < 0 || j >= ps.len() {
        None
    } else if trim_seq(ps[j].alias@).len() == 0 {
        Some(j)
    } else {
        first_blank_in(ps, j + 1)
    }
}

fn blank_alias_in(ps: &Vec<ProjectInput>) -> (r: Option<usize>)
    ensures
        match r {
            Some(j) => first_blank_in(ps@, 0) == Some(j as int) && j < ps.len(),
            None => first_blank_in(ps@, 0).is_none(),
        },
{
    let mut j: usize = 0;
    while j < ps.len()
        invariant
            j <= ps.len(),
            first_blank_in(ps@, j as int) == first_blank_in(ps@, 0),
        decreases ps.len() - j,
    {
        if trim_chars(&chars_of(ps[j].alias.as_str())).len() == 0 {
            return Some(j);
        }
        j = j + 1;
    }
    None
}

/// Every project needs an alias (chat deploys name projects by alias); the
/// first one without names its job in the error.
pub fn validate_project_aliases(credentials: &Vec<CredentialInput>) -> (r: Result<(), String>)
    ensures
        match first_blank_alias(credentials@) {
            Some((c, p)) => r.is_err() && r->Err_0@ == "项目「"@ + trim_seq(
                credentials@[c].projects@[p].job@,
            ) + "」的别名不能为空"@,
            None => r.is_ok(),
        },
{
    let mut i: usize = 0;
    assert(credentials@.take(0) =~= Seq::<CredentialInput>::empty());
    while i < credentials.len()
        invariant
            i <= credentials.len(),
            first_blank_alias(credentials@.take(i as int)).is_none(),
        decreases credentials.len() - i,
    {
        assert(credentials@.take(i + 1).drop_last() =~= credentials@.take(i as int));
        assert(credentials@.take(i + 1).last() == credentials@[i as int]);
        match blank_alias_in(&credentials[i].projects) {
            Some(j) => {
                proof {
                    lemma_first_blank_prefix(credentials@, (i + 1) as int);
                }
                let mut msg = owned("项目「");
                push_str(&mut msg, trim(credentials[i].projects[j].job.as_str()).as_str());
                push_str(&mut msg, "」的别名不能为空");
                return Err(msg);
            },
            None => {},
        }
        i = i + 1;
    }
    assert(credentials@.take(credentials.len() as int) =~= credentials@);
    Ok(())
}

proof fn lemma_first_blank_prefix(creds: Seq<CredentialInput>, k: int)
    requires
        0 <= k <= creds.len(),
        first_blank_alias(creds.take(k)).is_some(),
    ensures
        first_blank_alias(creds) == first_blank_alias(creds.take(k)),
    decreases creds.len() - k,
{
    if k < creds.len() {
        assert(creds.take(k + 1).drop_last() =~= creds.take(k));
        lemma_first_blank_prefix(creds, k + 1);
    } else {
        assert(creds.take(k) =~= creds);
    }
}

/// Where the Jenkins MCP server script is found when nothing else says.
pub open spec fn default_jenkins_mcp_path() -> Seq<char> {
    "D:\\coding\\my-mcp-servers\\jenkins-mcp\\dist\\index.js"@
}

/// How an MCP server is started, with its environment and tool policy
/// (each a list of distinct keys with values).
#[derive(Debug, Clone)]
pub struct McpServerConfig {
    pub command: String,
    pub args: Vec<String>,
    pub env: Vec<(String, String)>,
    pub enabled: bool,
    pub tool_policy: Vec<(String, String)>,
}

/// The script path: the one given (trimmed) when not blank, else the current
/// server's first argument (trimmed) when not blank, else the default.
pub fn resolve_jenkins_mcp_path(input: Option<&str>, old: Option<&McpServerConfig>) -> (r: String)
    ensures
        r@ == if input.is_some() && trim_seq(input.unwrap()@).len() > 0 {
            trim_seq(input.unwrap()@)
        } else if old.is_some() && old.unwrap().args.len() > 0 && trim_seq(
            old.unwrap().args@[0]@,
        ).len() > 0 {
            trim_seq(old.unwrap().args@[0]@)
        } else {
            default_jenkins_mcp_path()
        },
{
    match input {
        Some(p) => {
            let t = trim(p);
            if !t.as_str().is_empty() {
                return t;
            }
        },
        None => {},
    }
    match old {
        Some(c) => {
            if c.args.len() > 0 {
                let t = trim(c.args[0].as_str());
                if !t.as_str().is_empty() {
                    return t;
                }
            }
        },
        None => {},
    }
    owned("D:\\coding\\my-mcp-servers\\jenkins-mcp\\dist\\index.js")
}

/// Key-value pairs as plain values.
pub open spec fn pairs_view(v: Vec<(String, String)>) -> Seq<(Seq<char>, Seq<char>)> {
    v@.map_values(|p: (String, String)| (p.0@, p.1@))
}

/// Index of the first pair with key `k`.
pub open spec fn key_index(s: Seq<(Seq<char>, Seq<char>)>, k: Seq<char>, from: int) -> Option<int>
    decreases s.len() - from,
{
    if from < 0 || from >= s.len() {
        None
    } else if s[from].0 == k {
        Some(from)
    } else {
        key_index(s, k, from + 1)
    }
}

/// Map insertion on a pair list: an existing key gets the new value in place,
/// a new key is appended.
pub open spec fn kv_insert(s: Seq<(Seq<char>, Seq<char>)>, k: Seq<char>, v: Seq<char>) -> Seq<(Seq<char>, Seq<char>)> {
    match key_index(s, k, 0) {
        Some(j) => s.update(j, (k, v)),
        None => s.push((k, v)),
    }
}

/// Map lookup on a pair list.
pub open spec fn kv_get(s: Seq<(Seq<char>, Seq<char>)>, k: Seq<char>) -> Option<Seq<char>> {
    match key_index(s, k, 0) {
        Some(j) => Some(s[j].1),
        None => None,
    }
}

proof fn lemma_key_index_bounds(s: Seq<(Seq<char>, Seq<char>)>, k: Seq<char>, from: int)
    ensures
        match key_index(s, k, from) {
            Some(j) => from <= j < s.len() && s[j].0 == k && forall|m: int| from <= m < j ==> s[m].0 != k,
            None => forall|m: int| 0 <= from <= m < s.len() ==> s[m].0 != k,
        },
    decreases s.len() - from,
{
    if 0 <= from < s.len() && s[from].0 != k {
        lemma_key_index_bounds(s, k, from + 1);
    }
}

/// Map laws of the pair list: a lookup after an insertion of `k` gives the
/// new value; other keys keep theirs.
pub proof fn lemma_kv_insert_get(s: Seq<(Seq<char>, Seq<char>)>, k: Seq<char>, v: Seq<char>, k2: Seq<char>)
    ensures
        kv_get(kv_insert(s, k, v), k) == Some(v),
        k2 != k ==> kv_get(kv_insert(s, k, v), k2) == kv_get(s, k2),
{
    lemma_key_index_bounds(s, k, 0);
    lemma_key_index_bounds(s, k2, 0);
    let t = kv_insert(s, k, v);
    lemma_key_index_bounds(t, k, 0);
    lemma_key_index_bounds(t, k2, 0);
    match key_index(s, k, 0) {
        Some(j) => {
            assert(t[j].0 == k);
            match key_index(t, k, 0) {
                Some(i) => {
                    if i < j {
                        assert(t[i] == s[i]);
                    } else if i > j {
                        assert(t[j].0 == k);
                    }
                },
                None => {
                    assert(t[j].0 == k);
                },
            }
            if k2 != k {
                match key_index(s, k2, 0) {
                    Some(i) => {
                        assert(t[i] == s[i]);
                        match key_index(t, k2, 0) {
                            Some(i2) => {
                                if i2 < i {
                                    if i2 != j {
                                        assert(t[i2] == s[i2]);
                                    }
                                } else if i2 > i {
                                    assert(t[i].0 == k2);
                                }
                            },
                            None => {
                                assert(t[i].0 == k2);
                            },
                        }
                    },
                    None => {
                        match key_index(t, k2, 0) {
                            Some(i2) => {
                                if i2 != j {
                                    assert(t[i2] == s[i2]);
                                }
                            },
                            None => {},
                        }
                    },
                }
            }
        },
        None => {
            assert(t[s.len() as int].0 == k);
            match key_index(t, k, 0) {
                Some(i) => {
                    if i < s.len() {
                        assert(t[i] == s[i]);
                    }
                },
                None => {},
            }
            if k2 != k {
                match key_index(s, k2, 0) {
                    Some(i) => {
                        assert(t[i] == s[i]);
                        match key_index(t, k2, 0) {
                            Some(i2) => {
                                if i2 < i {
                                    assert(t[i2] == s[i2]);
                                } else if i2 > i {
                                    assert(t[i].0 == k2);
                                }
                            },
                            None => {
                                assert(t[i].0 == k2);
                            },
                        }
                    },
                    None => {
                        match key_index(t, k2, 0) {
                            Some(i2) => {
                                if i2 < s.len() {
                                    assert(t[i2] == s[i2]);
                                }
                            },
                            None => {},
                        }
                    },
                }
            }
        },
    }
}

/// Inserts `(k, v)` into a pair list with map semantics.
pub fn kv_insert_exec(pairs: &mut Vec<(String, String)>, k: String, v: String)
    ensures
        pairs_view(*final(pairs)) == kv_insert(pairs_view(*old(pairs)), k@, v@),
{
    let ghost s = pairs_view(*pairs);
    let mut j: usize = 0;
    while j < pairs.len() && pairs[j].0 != k
        invariant
            j <= pairs.len(),
            s == pairs_view(*pairs),
            key_index(s, k@, j as int) == key_index(s, k@, 0),
        decreases pairs.len() - j,
    {
        assert(s[j as int].0 == pairs@[j as int].0@);
        j = j + 1;
    }
    if j < pairs.len() {
        assert(s[j as int].0 == k@);
        pairs.set(j, (k, v));
        assert(pairs_view(*pairs) =~= s.update(j as int, (k@, v@)));
    } else {
        pairs.push((k, v));
        assert(pairs_view(*pairs) =~= s.push((k@, v@)));
    }
}

/// The environment of the Jenkins MCP server for a credential list: for each
/// credential, in order, `JENKINS_ENV_<NAME>_URL` (the trimmed Jenkins URL),
/// `_USERNAME` (its trimmed user name) and `_TOKEN` (a `keychain:` reference
/// to its key-store account), with map semantics.
pub open spec fn jenkins_env(creds: Seq<CredentialInput>, url: Seq<char>) -> Seq<(Seq<char>, Seq<char>)>
    decreases creds.len(),
{
    if creds.len() == 0 {
        Seq::empty()
    } else {
        let e = jenkins_env(creds.drop_last(), url);
        let c = creds.last();
        let p = "JENKINS_ENV_"@ + uppercase_of(trim_seq(c.name@)) + "_"@;
        kv_insert(
            kv_insert(kv_insert(e, p + "URL"@, trim_seq(url)), p + "USERNAME"@, trim_seq(c.username@)),
            p + "TOKEN"@,
            "keychain:"@ + ("jenkins-"@ + lowercase_of(trim_seq(c.name@)) + "-token"@),
        )
    }
}

/// The upper-cased names the credentials give their variables.
pub open spec fn env_names(creds: Seq<CredentialInput>) -> Set<Seq<char>>
    decreases creds.len(),
{
    if creds.len() == 0 {
        Set::empty()
    } else {
        env_names(creds.drop_last()).insert(uppercase_of(trim_seq(creds.last().name@)))
    }
}

/// The variable `JENKINS_ENV_<name>_<suffix>`.
pub open spec fn env_var(name: Seq<char>, suffix: Seq<char>) -> Seq<char> {
    "JENKINS_ENV_"@ + name + "_"@ + suffix
}

/// The three variables each credential sets.
pub open spec fn env_suffix(x: Seq<char>) -> bool {
    x == "URL"@ || x == "USERNAME"@ || x == "TOKEN"@
}

/// `k` is a key of the pair list `s`.
pub open spec fn has_key(s: Seq<(Seq<char>, Seq<char>)>, k: Seq<char>) -> bool {
    exists|i: int| 0 <= i < s.len() && #[trigger] s[i].0 == k
}

proof fn lemma_key_index(s: Seq<(Seq<char>, Seq<char>)>, k: Seq<char>, from: int)
    requires
        0 <= from,
    ensures
        match key_index(s, k, from) {
            Some(j) => from <= j < s.len() && s[j].0 == k,
            None => forall|i: int| from <= i < s.len() ==> #[trigger] s[i].0 != k,
        },
    decreases s.len() - from,
{
    if from < s.len() && s[from].0 != k {
        lemma_key_index(s, k, from + 1);
    }
}

proof fn lemma_kv_insert(s: Seq<(Seq<char>, Seq<char>)>, k: Seq<char>, v: Seq<char>)
    ensures
        kv_insert(s, k, v).len() == s.len() + if has_key(s, k) { 0int } else { 1int },
        forall|k2: Seq<char>| has_key(kv_insert(s, k, v), k2) <==> (has_key(s, k2) || k2 == k),
{
    lemma_key_index(s, k, 0);
    let t = kv_insert(s, k, v);
    match key_index(s, k, 0) {
        Some(j) => {
            assert(has_key(s, k));
            assert forall|k2: Seq<char>| has_key(t, k2) <==> (has_key(s, k2) || k2 == k) by {
                if has_key(t, k2) {
                    let i = choose|i: int| 0 <= i < t.len() && #[trigger] t[i].0 == k2;
                    if i != j {
                        assert(s[i].0 == k2);
                    }
                }
                if has_key(s, k2) {
                    let i = choose|i: int| 0 <= i < s.len() && #[trigger] s[i].0 == k2;
                    if i == j {
                        assert(t[j].0 == k2);
                    } else {
                        assert(t[i].0 == k2);
                    }
                }
                if k2 == k {
                    assert(t[j].0 == k2);
                }
            }
        },
        None => {
            assert(!has_key(s, k));
            assert forall|k2: Seq<char>| has_key(t, k2) <==> (has_key(s, k2) || k2 == k) by {
                if has_key(t, k2) {
                    let i = choose|i: int| 0 <= i < t.len() && #[trigger] t[i].0 == k2;
                    if i < s.len() {
                        assert(s[i].0 == k2);
                    }
                }
                if has_key(s, k2) {
                    let i = choose|i: int| 0 <= i < s.len() && #[trigger] s[i].0 == k2;
                    assert(t[i].0 == k2);
                }
                if k2 == k {
                    assert(t[s.len() as int].0 == k2);
                }
            }
        },
    }
}

proof fn lemma_env_var_injective(x: Seq<char>, a: Seq<char>, y: Seq<char>, b: Seq<char>)
    requires
        env_suffix(a),
        env_suffix(b),
        env_var(x, a) == env_var(y, b),
    ensures
        x == y,
        a == b,
{
    reveal_strlit("URL");
    reveal_strlit("USERNAME");
    reveal_strlit("TOKEN");
    reveal_strlit("JENKINS_ENV_");
    reveal_strlit("_");
    let l = env_var(x, a);
    assert(l.last() == a.last());
    assert(env_var(y, b).last() == b.last());
    assert(a.last() == b.last());
    assert(a == b);
    assert(x.len() == y.len());
    assert(x =~= l.subrange(12, 12 + x.len() as int));
    assert(y =~= env_var(y, b).subrange(12, 12 + y.len() as int));
}

proof fn lemma_jenkins_env_keys(creds: Seq<CredentialInput>, url: Seq<char>)
    ensures
        env_names(creds).finite(),
        jenkins_env(creds, url).len() == 3 * env_names(creds).len(),
        forall|k: Seq<char>| has_key(jenkins_env(creds, url), k) <==> exists|x: Seq<char>, a: Seq<char>|
            env_names(creds).contains(x) && env_suffix(a) && k == #[trigger] env_var(x, a),
    decreases creds.len(),
{
    if creds.len() == 0 {
        assert(env_names(creds) =~= Set::<Seq<char>>::empty());
    } else {
        let init = creds.drop_last();
        lemma_jenkins_env_keys(init, url);
        let e = jenkins_env(init, url);
        let c = creds.last();
        let x = uppercase_of(trim_seq(c.name@));
        let n0 = env_names(init);
        let k1 = env_var(x, "URL"@);
        let k2 = env_var(x, "USERNAME"@);
        let k3 = env_var(x, "TOKEN"@);
        let e1 = kv_insert(e, k1, trim_seq(url));
        let e2 = kv_insert(e1, k2, trim_seq(c.username@));
        let e3 = kv_insert(e2, k3, "keychain:"@ + ("jenkins-"@ + lowercase_of(trim_seq(c.name@)) + "-token"@));
        assert(e3 == jenkins_env(creds, url));
        lemma_kv_insert(e, k1, trim_seq(url));
        lemma_kv_insert(e1, k2, trim_seq(c.username@));
        lemma_kv_insert(e2, k3, "keychain:"@ + ("jenkins-"@ + lowercase_of(trim_seq(c.name@)) + "-token"@));
        if n0.contains(x) {
            assert(has_key(e, k1));
            assert(has_key(e1, k2)) by {
                assert(has_key(e, k2));
            }
            assert(has_key(e2, k3)) by {
                assert(has_key(e, k3));
            }
            assert(env_names(creds) =~= n0);
        } else {
            assert(!has_key(e, k1)) by {
                if has_key(e, k1) {
                    let (y, b) = choose|y: Seq<char>, b: Seq<char>| n0.contains(y) && env_suffix(b) && k1 == #[trigger] env_var(y, b);
                    lemma_env_var_injective(x, "URL"@, y, b);
                }
            }
            assert(!has_key(e1, k2)) by {
                if has_key(e, k2) {
                    let (y, b) = choose|y: Seq<char>, b: Seq<char>| n0.contains(y) && env_suffix(b) && k2 == #[trigger] env_var(y, b);
                    lemma_env_var_injective(x, "USERNAME"@, y, b);
                }
                if k2 == k1 {
                    lemma_env_var_injective(x, "USERNAME"@, x, "URL"@);
                    reveal_strlit("URL");
                    reveal_strlit("USERNAME");
                }
            }
            assert(!has_key(e2, k3)) by {
                if has_key(e, k3) {
                    let (y, b) = choose|y: Seq<char>, b: Seq<char>| n0.contains(y) && env_suffix(b) && k3 == #[trigger] env_var(y, b);
                    lemma_env_var_injective(x, "TOKEN"@, y, b);
                }
                if k3 == k1 {
                    lemma_env_var_injective(x, "TOKEN"@, x, "URL"@);
                    reveal_strlit("URL");
                    reveal_strlit("TOKEN");
                }
                if k3 == k2 {
                    lemma_env_var_injective(x, "TOKEN"@, x, "USERNAME"@);
                    reveal_strlit("USERNAME");
                    reveal_strlit("TOKEN");
                }
            }
        }
        assert forall|k: Seq<char>| has_key(e3, k) <==> exists|y: Seq<char>, a: Seq<char>|
            env_names(creds).contains(y) && env_suffix(a) && k == #[trigger] env_var(y, a) by {
            if has_key(e3, k) {
                assert(has_key(e2, k) || k == k3);
                assert(has_key(e1, k) || k == k2 || k == k3);
                assert(has_key(e, k) || k == k1 || k == k2 || k == k3);
                if has_key(e, k) {
                    let (y, a) = choose|y: Seq<char>, a: Seq<char>| n0.contains(y) && env_suffix(a) && k == #[trigger] env_var(y, a);
                    assert(env_names(creds).contains(y));
                } else if k == k1 {
                    assert(env_suffix("URL"@));
                } else if k == k2 {
                    assert(env_suffix("USERNAME"@));
                } else {
                    assert(env_suffix("TOKEN"@));
                }
            }
            if exists|y: Seq<char>, a: Seq<char>| env_names(creds).contains(y) && env_suffix(a) && k == #[trigger] env_var(y, a) {
                let (y, a) = choose|y: Seq<char>, a: Seq<char>| env_names(creds).contains(y) && env_suffix(a) && k == #[trigger] env_var(y, a);
                if y != x {
                    assert(n0.contains(y));
                    assert(has_key(e, k));
                    assert(has_key(e1, k));
                    assert(has_key(e2, k));
                } else if a == "URL"@ {
                    assert(has_key(e1, k));
                    assert(has_key(e2, k));
                } else if a == "USERNAME"@ {
                    assert(has_key(e2, k));
                }
                assert(has_key(e3, k));
            }
        }
    }
}

/// The Jenkins server's environment holds three variables (URL, user name,
/// token) for every distinct credential name, trimmed and upper-cased, and
/// nothing else: credentials that share a name share their variables.
pub proof fn lemma_jenkins_env_count(creds: Seq<CredentialInput>, url: Seq<char>)
    ensures
        jenkins_env(creds, url).len() == 3 * env_names(creds).len(),
        forall|k: Seq<char>| has_key(jenkins_env(creds, url), k) <==> exists|x: Seq<char>, a: Seq<char>|
            env_names(creds).contains(x) && env_suffix(a) && k == #[trigger] env_var(x, a),
{
    lemma_jenkins_env_keys(creds, url);
}

/// The tool policy used when none is configured: starting or cancelling a
/// build needs confirmation, every other (read-only) tool runs directly.
pub open spec fn default_policy_spec() -> Seq<(Seq<char>, Seq<char>)> {
    seq![("trigger_build"@, "confirm"@), ("cancel_build"@, "confirm"@), ("*"@, "auto"@)]
}

/// The default Jenkins tool policy.
pub fn default_jenkins_tool_policy() -> (r: Vec<(String, String)>)
    ensures
        pairs_view(r) == default_policy_spec(),
{
    let mut p: Vec<(String, String)> = Vec::new();
    p.push((owned("trigger_build"), owned("confirm")));
    p.push((owned("cancel_build"), owned("confirm")));
    p.push((owned("*"), owned("auto")));
    assert(pairs_view(p) =~= default_policy_spec());
    p
}

fn concat(a: &String, b: &str) -> (r: String)
    ensures
        r@ == a@ + b@,
{
    let mut r = a.clone();
    push_str(&mut r, b);
    r
}

/// The Jenkins MCP server configuration for the given credentials: `node`
/// running the script, the environment above, and the given tool policy or,
/// when it is empty, the default one.
pub fn build_jenkins_server_config(
    jenkins_mcp_path: &str,
    jenkins_url: &str,
    credentials: &Vec<CredentialInput>,
    enabled: bool,
    tool_policy: Vec<(String, String)>,
) -> (r: McpServerConfig)
    ensures
        r.command@ == "node"@,
        r.args@.map_values(|a: String| a@) == seq![jenkins_mcp_path@],
        pairs_view(r.env) == jenkins_env(credentials@, jenkins_url@),
        r.enabled == enabled,
        pairs_view(r.tool_policy) == if tool_policy.len() == 0 {
            default_policy_spec()
        } else {
            pairs_view(tool_policy)
        },
{
    let mut env: Vec<(String, String)> = Vec::new();
    let url = trim(jenkins_url);
    let mut i: usize = 0;
    assert(credentials@.take(0) =~= Seq::<CredentialInput>::empty());
    while i < credentials.len()
        invariant
            i <= credentials.len(),
            url@ == trim_seq(jenkins_url@),
            pairs_view(env) == jenkins_env(credentials@.take(i as int), jenkins_url@),
        decreases credentials.len() - i,
    {
        let c = &credentials[i];
        assert(credentials@.take(i + 1).drop_last() =~= credentials@.take(i as int));
        assert(credentials@.take(i + 1).last() == *c);
        let prefix = env_key_prefix(c.name.as_str());
        kv_insert_exec(&mut env, concat(&prefix, "URL"), url.clone());
        kv_insert_exec(&mut env, concat(&prefix, "USERNAME"), trim(c.username.as_str()));
        let account = token_keychain_account(c.name.as_str());
        let mut token = owned("keychain:");
        push_str(&mut token, account.as_str());
        kv_insert_exec(&mut env, concat(&prefix, "TOKEN"), token);
        i = i + 1;
    }
    assert(credentials@.take(credentials.len() as int) =~= credentials@);
    let policy = if tool_policy.len() == 0 {
        default_jenkins_tool_policy()
    } else {
        tool_policy
    };
    let mut args: Vec<String> = Vec::new();
    args.push(owned(jenkins_mcp_path));
    assert(args@.map_values(|a: String| a@) =~= seq![jenkins_mcp_path@]);
    McpServerConfig { command: owned("node"), args, env, enabled, tool_policy: policy }
}

/// A project as written to the deploy presets file.
#[derive(Debug, Clone)]
pub struct PresetProject {
    pub job: String,
    pub alias: String,
}

/// A credential as written to the deploy presets file; the token is a
/// `keychain:` reference, never the secret.
#[derive(Debug, Clone)]
pub struct PresetCredential {
    pub name: String,
    pub username: String,
    pub token: String,
    pub projects: Vec<PresetProject>,
}

/// The deploy presets file: `{jenkinsUrl, credentials}`.
#[derive(Debug, Clone)]
pub struct DeployPresets {
    pub jenkins_url: String,
    pub credentials: Vec<PresetCredential>,
}

/// A saved credential as plain values.
pub open spec fn preset_view(c: PresetCredential) -> (Seq<char>, Seq<char>, Seq<char>, Seq<(Seq<char>, Seq<char>)>) {
    (c.name@, c.username@, c.token@, c.projects@.map_values(|p: PresetProject| (p.job@, p.alias@)))
}

/// How an input credential is saved: name and user name trimmed, the token
/// replaced by its key-store reference, projects as entered.
pub open spec fn saved_credential(c: CredentialInput) -> (Seq<char>, Seq<char>, Seq<char>, Seq<(Seq<char>, Seq<char>)>) {
    (
        trim_seq(c.name@),
        trim_seq(c.username@),
        "keychain:"@ + ("jenkins-"@ + lowercase_of(trim_seq(c.name@)) + "-token"@),
        c.projects@.map_values(|p: ProjectInput| (p.job@, p.alias@)),
    )
}

fn preset_projects(ps: &Vec<ProjectInput>) -> (r: Vec<PresetProject>)
    ensures
        r@.map_values(|p: PresetProject| (p.job@, p.alias@)) == ps@.map_values(|p: ProjectInput| (p.job@, p.alias@)),
{
    let mut out: Vec<PresetProject> = Vec::new();
    let mut i: usize = 0;
    while i < ps.len()
        invariant
            i <= ps.len(),
            out@.map_values(|p: PresetProject| (p.job@, p.alias@)) == ps@.take(i as int).map_values(
                |p: ProjectInput| (p.job@, p.alias@),
            ),
        decreases ps.len() - i,
    {
        let ghost before = out@.map_values(|p: PresetProject| (p.job@, p.alias@));
        out.push(PresetProject { job: ps[i].job.clone(), alias: ps[i].alias.clone() });
        assert(out@.map_values(|p: PresetProject| (p.job@, p.alias@)) =~= before.push(
            (ps@[i as int].job@, ps@[i as int].alias@),
        ));
        assert(ps@.take(i + 1) =~= ps@.take(i as int).push(ps@[i as int]));
        i = i + 1;
        assert(out@.map_values(|p: PresetProject| (p.job@, p.alias@)) =~= ps@.take(i as int).map_values(
            |p: ProjectInput| (p.job@, p.alias@),
        ));
    }
    assert(ps@.take(ps.len() as int) =~= ps@);
    out
}

/// The deploy presets saved for the given settings.
pub fn build_deploy_presets(jenkins_url: &str, credentials: &Vec<CredentialInput>) -> (r: DeployPresets)
    ensures
        r.jenkins_url@ == trim_seq(jenkins_url@),
        r.credentials@.map_values(|c: PresetCredential| preset_view(c)) == credentials@.map_values(
            |c: CredentialInput| saved_credential(c),
        ),
{
    let mut creds: Vec<PresetCredential> = Vec::new();
    let mut i: usize = 0;
    while i < credentials.len()
        invariant
            i <= credentials.len(),
            creds@.map_values(|c: PresetCredential| preset_view(c)) == credentials@.take(i as int).map_values(
                |c: CredentialInput| saved_credential(c),
            ),
        decreases credentials.len() - i,
    {
        let c = &credentials[i];
        let account = token_keychain_account(c.name.as_str());
        let mut token = owned("keychain:");
        push_str(&mut token, account.as_str());
        let ghost before = creds@.map_values(|c: PresetCredential| preset_view(c));
        creds.push(
            PresetCredential {
                name: trim(c.name.as_str()),
                username: trim(c.username.as_str()),
                token,
                projects: preset_projects(&c.projects),
            },
        );
        assert(creds@.map_values(|c: PresetCredential| preset_view(c)) =~= before.push(
            saved_credential(*c),
        ));
        i = i + 1;
        assert(credentials@.take(i as int) =~= credentials@.take(i - 1).push(*c));
        assert(creds@.map_values(|c: PresetCredential| preset_view(c)) =~= credentials@.take(i as int).map_values(
            |c: CredentialInput| saved_credential(c),
        ));
    }
    assert(credentials@.take(credentials.len() as int) =~= credentials@);
    DeployPresets { jenkins_url: trim(jenkins_url), credentials: creds }
}

/// Strictly increasing in `str` order (sorted, no repeats).
pub open spec fn sorted_unique(s: Seq<Seq<char>>) -> bool {
    forall|a: int, b: int| 0 <= a < b < s.len() ==> str_lt(#[trigger] s[a], #[trigger] s[b])
}

/// Adds `x` to a sorted list without repeats, keeping it so.
pub fn insert_sorted_unique(names: &mut Vec<String>, x: String)
    requires
        sorted_unique(strs(*old(names))),
    ensures
        sorted_unique(strs(*final(names))),
        forall|y: Seq<char>| strs(*final(names)).contains(y) <==> (strs(*old(names)).contains(y) || y == x@),
{
    let ghost s = strs(*names);
    let xv = chars_of(x.as_str());
    let mut p: usize = 0;
    while p < names.len() && str_less(&chars_of(names[p].as_str()), &xv)
        invariant
            p <= names.len(),
            s == strs(*names),
            xv@ == x@,
            forall|k: int| 0 <= k < p ==> str_lt(#[trigger] s[k], x@),
        decreases names.len() - p,
    {
        p = p + 1;
    }
    if p < names.len() && names[p] == x {
        assert(s[p as int] == x@);
        assert(s.contains(x@));
        return;
    }
    proof {
        if p < names.len() {
            lemma_str_lt_order(s[p as int], x@, x@);
        }
    }
    names.insert(p, x);
    proof {
        let t = strs(*names);
        assert(t =~= s.insert(p as int, x@));
        assert forall|a: int, b: int| 0 <= a < b < t.len() implies str_lt(#[trigger] t[a], #[trigger] t[b]) by {
            if b < p {
            } else if b == p {
                assert(t[a] == s[a]);
            } else if a == p {
                assert(t[b] == s[b - 1]);
                if b - 1 > p {
                    lemma_str_lt_order(x@, s[p as int], s[b - 1]);
                }
            } else if a < p {
                assert(t[a] == s[a] && t[b] == s[b - 1]);
            } else {
                assert(t[a] == s[a - 1] && t[b] == s[b - 1]);
            }
        }
        assert forall|y: Seq<char>| t.contains(y) <==> (s.contains(y) || y == x@) by {
            if t.contains(y) {
                let k = choose|k: int| 0 <= k < t.len() && t[k] == y;
                if k < p {
                    assert(s[k] == y);
                } else if k > p {
                    assert(s[k - 1] == y);
                }
            }
            if s.contains(y) {
                let k = choose|k: int| 0 <= k < s.len() && s[k] == y;
                if k < p {
                    assert(t[k] == y);
                } else {
                    assert(t[k + 1] == y);
                }
            }
            if y == x@ {
                assert(t[p as int] == y);
            }
        }
    }
}

/// The key name of a saved credential: trimmed and lower-cased.
pub open spec fn credential_key(n: Seq<char>) -> Seq<char> {
    lowercase_of(trim_seq(n))
}

/// The distinct non-empty credential keys of the saved names, sorted.
pub fn credential_names(names: &Vec<String>) -> (r: Vec<String>)
    ensures
        sorted_unique(strs(r)),
        forall|y: Seq<char>| strs(r).contains(y) <==> (y.len() > 0 && exists|i: int|
            0 <= i < names.len() && credential_key(#[trigger] strs(*names)[i]) == y),
{
    let mut out: Vec<String> = Vec::new();
    let mut i: usize = 0;
    while i < names.len()
        invariant
            i <= names.len(),
            sorted_unique(strs(out)),
            forall|y: Seq<char>| strs(out).contains(y) <==> (y.len() > 0 && exists|j: int|
                0 <= j < i && credential_key(#[trigger] strs(*names)[j]) == y),
        decreases names.len() - i,
    {
        let key = to_lowercase(trim(names[i].as_str()).as_str());
        assert(key@ == credential_key(strs(*names)[i as int]));
        let ghost before = strs(out);
        if !key.as_str().is_empty() {
            insert_sorted_unique(&mut out, key);
        }
        proof {
            assert forall|y: Seq<char>| strs(out).contains(y) <==> (y.len() > 0 && exists|j: int|
                0 <= j < i + 1 && credential_key(#[trigger] strs(*names)[j]) == y) by {
                if y.len() > 0 && exists|j: int| 0 <= j < i + 1 && credential_key(#[trigger] strs(*names)[j]) == y {
                    let j = choose|j: int| 0 <= j < i + 1 && credential_key(#[trigger] strs(*names)[j]) == y;
                    if j < i {
                        assert(before.contains(y));
                    }
                }
                if strs(out).contains(y) && !before.contains(y) {
                    assert(credential_key(strs(*names)[i as int]) == y);
                }
            }
        }
        i = i + 1;
    }
    out
}

} // verus!
