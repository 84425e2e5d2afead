//! The deploy settings page around the Jenkins files: what the save command
//! receives, which stored tokens a save retires, what the page is shown,
//! and how a connection test is judged.

use vstd::prelude::*;
use crate::commit_link::{contains_string, strs};
use crate::config_json::{Json, JsonView, jview, jviews, member, fields_of, str_member, member_of, lemma_jviews};
use crate::config_merge::copy_json;
use crate::deploy::credential_key;
use crate::text::{chars_of, decimal_seq, decimal_string, owned, push_str, slice_chars, string_of, to_lowercase, trim, trim_seq};

verus! {

/// The save command's argument: when it is an object with the single
/// member `input` holding an object, that object; else the argument itself.
pub open spec fn save_input_spec(v: JsonView) -> JsonView {
    match v {
        JsonView::Object(fs) => if fs.len() == 1 && fs[0].0 == "input"@ && fs[0].1 is Object {
            fs[0].1
        } else {
            v
        },
        _ => v,
    }
}

/// Unwraps the `{ "input": {...} }` form the front end may send.
pub fn unwrap_save_input(v: Json) -> (r: Json)
    ensures
        jview(r) == save_input_spec(jview(v)),
{
    let inner: Option<Json> = match &v {
        Json::Object(fs) => {
            proof {
                crate::config_json::lemma_fviews(fs@);
            }
            if fs.len() == 1 && crate::text::seq_eq(&chars_of(fs[0].0.as_str()), &chars_of("input")) {
                match &fs[0].1 {
                    Json::Object(_) => Some(copy_json(&fs[0].1)),
                    _ => None,
                }
            } else {
                None
            }
        },
        _ => None,
    };
    match inner {
        Some(x) => x,
        None => v,
    }
}

/// The saved credential names (already keys) that are not among the new
/// credentials' keys, in order.
pub open spec fn retired_spec(old: Seq<Seq<char>>, new_keys: Seq<Seq<char>>) -> Seq<Seq<char>>
    decreases old.len(),
{
    if old.len() == 0 {
        old
    } else {
        let rest = retired_spec(old.drop_last(), new_keys);
        if new_keys.contains(old.last()) {
            rest
        } else {
            rest.push(old.last())
        }
    }
}

/// The keys of the first `n` new credential names (trimmed, lower-cased).
pub open spec fn new_keys_spec(names: Seq<Seq<char>>) -> Seq<Seq<char>> {
    names.map_values(|n: Seq<char>| credential_key(n))
}

/// The saved credentials a save drops, whose stored tokens are to be
/// cleared: each old name that no new credential's trimmed, lower-cased
/// name equals.
pub fn retired_credentials(old_names: &Vec<String>, new_names: &Vec<String>) -> (r: Vec<String>)
    ensures
        strs(r) == retired_spec(strs(*old_names), new_keys_spec(strs(*new_names))),
{
    let mut keys: Vec<String> = Vec::new();
    let mut i: usize = 0;
    while i < new_names.len()
        invariant
            i <= new_names.len(),
            strs(keys) == new_keys_spec(strs(*new_names)).take(i as int),
        decreases new_names.len() - i,
    {
        let k = to_lowercase(trim(new_names[i].as_str()).as_str());
        let ghost before = strs(keys);
        keys.push(k);
        assert(strs(keys) =~= before.push(k@));
        assert(new_keys_spec(strs(*new_names)).take(i + 1) =~= new_keys_spec(strs(*new_names)).take(i as int).push(
            credential_key(new_names@[i as int]@),
        ));
        i = i + 1;
    }
    assert(new_keys_spec(strs(*new_names)).take(i as int) =~= new_keys_spec(strs(*new_names)));
    let mut out: Vec<String> = Vec::new();
    let mut j: usize = 0;
    while j < old_names.len()
        invariant
            j <= old_names.len(),
            strs(keys) == new_keys_spec(strs(*new_names)),
            strs(out) == retired_spec(strs(*old_names).take(j as int), strs(keys)),
        decreases old_names.len() - j,
    {
        let ghost prev = strs(out);
        assert(strs(*old_names).take(j + 1).drop_last() =~= strs(*old_names).take(j as int));
        if !contains_string(&keys, &old_names[j]) {
            out.push(owned(old_names[j].as_str()));
            assert(strs(out) =~= prev.push(old_names@[j as int]@));
        }
        j = j + 1;
    }
    assert(strs(*old_names).take(j as int) =~= strs(*old_names));
    out
}

/// A Jenkins address with trailing `/` removed.
pub open spec fn strip_slashes(s: Seq<char>) -> Seq<char>
    decreases s.len(),
{
    if s.len() > 0 && s.last() == '/' {
        strip_slashes(s.drop_last())
    } else {
        s
    }
}

/// The checks before a Jenkins connection test: the address trimmed and
/// without trailing `/`, the user name trimmed, each required.
pub open spec fn jenkins_precheck_spec(url: Seq<char>, username: Seq<char>) -> Result<(Seq<char>, Seq<char>), Seq<char>> {
    let u = strip_slashes(trim_seq(url));
    let n = trim_seq(username);
    if u.len() == 0 {
        Err("请先填写 Jenkins 地址"@)
    } else if n.len() == 0 {
        Err("请先填写用户名"@)
    } else {
        Ok((u, n))
    }
}

/// Checks the address and user name of a Jenkins connection test and
/// returns them cleaned.
pub fn jenkins_precheck(url: &str, username: &str) -> (r: Result<(String, String), String>)
    ensures
        match r {
            Ok((u, n)) => jenkins_precheck_spec(url@, username@) == Ok::<(Seq<char>, Seq<char>), Seq<char>>((u@, n@)),
            Err(e) => jenkins_precheck_spec(url@, username@) == Err::<(Seq<char>, Seq<char>), Seq<char>>(e@),
        },
{
    let v = chars_of(trim(url).as_str());
    let mut hi: usize = v.len();
    assert(v@.subrange(0, hi as int) =~= v@);
    while hi > 0 && v[hi - 1] == '/'
        invariant
            hi <= v.len(),
            strip_slashes(v@) == strip_slashes(v@.subrange(0, hi as int)),
        decreases hi,
    {
        assert(v@.subrange(0, hi as int).drop_last() =~= v@.subrange(0, hi - 1));
        hi = hi - 1;
    }
    let u = string_of(&slice_chars(&v, 0, hi));
    if hi == 0 {
        return Err(owned("请先填写 Jenkins 地址"));
    }
    let n = trim(username);
    if n.as_str().is_empty() {
        return Err(owned("请先填写用户名"));
    }
    Ok((u, n))
}

/// What a connection test reports for an HTTP status: a success (with the
/// Jenkins version when the server gave one), a rejected login (401), a
/// refused account (403), or any other failure.
pub open spec fn jenkins_reply_spec(status: u16, version: Seq<char>) -> Result<Seq<char>, Seq<char>> {
    if 200 <= status <= 299 {
        if version.len() == 0 {
            Ok("连接成功 ✓"@)
        } else {
            Ok("连接成功 ✓（Jenkins "@ + version + "）"@)
        }
    } else if status == 401 {
        Err("认证失败：用户名或 token 不对"@)
    } else if status == 403 {
        Err("无权限（403）：账号权限不足"@)
    } else {
        Err("连接失败：HTTP "@ + decimal_seq(status as nat))
    }
}

/// Judges the answer of a Jenkins connection test.
pub fn jenkins_test_reply(status: u16, version: &str) -> (r: Result<String, String>)
    ensures
        match r {
            Ok(d) => jenkins_reply_spec(status, version@) == Ok::<Seq<char>, Seq<char>>(d@),
            Err(e) => jenkins_reply_spec(status, version@) == Err::<Seq<char>, Seq<char>>(e@),
        },
{
    if 200 <= status && status <= 299 {
        if version.is_empty() {
            Ok(owned("连接成功 ✓"))
        } else {
            let mut d = owned("连接成功 ✓（Jenkins ");
            push_str(&mut d, version);
            push_str(&mut d, "）");
            Ok(d)
        }
    } else if status == 401 {
        Err(owned("认证失败：用户名或 token 不对"))
    } else if status == 403 {
        Err(owned("无权限（403）：账号权限不足"))
    } else {
        let mut e = owned("连接失败：HTTP ");
        let code = decimal_string(status as u64);
        push_str(&mut e, code.as_str());
        Err(e)
    }
}

/// A saved credential as the settings page shows it (whether a token is
/// stored is added by the caller from the key store).
#[derive(Debug)]
pub struct CredentialView {
    pub name: String,
    pub username: String,
    /// The credential's `projects` as saved, an empty array when missing.
    pub projects: Json,
}

/// A saved credential as plain values.
pub open spec fn credential_view_spec(c: JsonView) -> (Seq<char>, Seq<char>, JsonView) {
    (
        match str_member(c, "name"@) {
            Some(s) => s,
            None => Seq::empty(),
        },
        match str_member(c, "username"@) {
            Some(s) => s,
            None => Seq::empty(),
        },
        match member(fields_of(c), "projects"@) {
            Some(p) => p,
            None => JsonView::Array(Seq::empty()),
        },
    )
}

/// The page's view of the saved deploy presets.
pub open spec fn presets_view_spec(v: JsonView) -> (Seq<char>, Seq<(Seq<char>, Seq<char>, JsonView)>) {
    (
        match str_member(v, "jenkinsUrl"@) {
            Some(s) => s,
            None => Seq::empty(),
        },
        match member(fields_of(v), "credentials"@) {
            Some(JsonView::Array(cs)) => cs.map_values(|c: JsonView| credential_view_spec(c)),
            _ => Seq::empty(),
        },
    )
}

/// The Jenkins address and the saved credentials of the deploy presets
/// file, as the settings page shows them; missing fields read as empty.
pub fn presets_view(v: &Json) -> (r: (String, Vec<CredentialView>))
    ensures
        (r.0@, r.1@.map_values(|c: CredentialView| (c.name@, c.username@, jview(c.projects)))) == presets_view_spec(
            jview(*v),
        ),
{
    let url: String = match member_of(v, "jenkinsUrl") {
        Some(Json::Str(s)) => owned(s.as_str()),
        _ => String::new(),
    };
    let mut out: Vec<CredentialView> = Vec::new();
    match member_of(v, "credentials") {
        Some(Json::Array(cs)) => {
            proof {
                lemma_jviews(cs@);
            }
            let ghost cv = jviews(cs@);
            let mut i: usize = 0;
            while i < cs.len()
                invariant
                    i <= cs.len(),
                    cv == jviews(cs@),
                    cv.len() == cs.len(),
                    forall|k: int| 0 <= k < cs.len() ==> #[trigger] cv[k] == jview(cs@[k]),
                    out@.map_values(|c: CredentialView| (c.name@, c.username@, jview(c.projects))) == cv.take(
                        i as int,
                    ).map_values(|c: JsonView| credential_view_spec(c)),
                decreases cs.len() - i,
            {
                let c = &cs[i];
                let name: String = match member_of(c, "name") {
                    Some(Json::Str(s)) => owned(s.as_str()),
                    _ => String::new(),
                };
                let username: String = match member_of(c, "username") {
                    Some(Json::Str(s)) => owned(s.as_str()),
                    _ => String::new(),
                };
                let projects: Json = match member_of(c, "projects") {
                    Some(p) => copy_json(p),
                    None => Json::Array(Vec::new()),
                };
                let ghost before = out@;
                let item = CredentialView { name, username, projects };
                let ghost iv = (item.name@, item.username@, jview(item.projects));
                assert(iv == credential_view_spec(cv[i as int]));
                out.push(item);
                assert(out@.map_values(|c: CredentialView| (c.name@, c.username@, jview(c.projects))) =~= before.map_values(
                    |c: CredentialView| (c.name@, c.username@, jview(c.projects)),
                ).push(iv));
                assert(cv.take(i + 1).map_values(|c: JsonView| credential_view_spec(c)) =~= cv.take(i as int).map_values(
                    |c: JsonView| credential_view_spec(c),
                ).push(credential_view_spec(cv[i as int])));
                i = i + 1;
            }
            assert(cv.take(i as int) =~= cv);
        },
        _ => {},
    }
    (url, out)
}

} // verus!
