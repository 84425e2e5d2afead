//! The settings file as a JSON tree, and keeping secrets out of it: the
//! secret slots (model API keys, tracker session cookie, bot tokens) are
//! found, their values handed to the key store, and replaced by a
//! placeholder before the file is written.

use vstd::prelude::*;
use crate::commit_link::strs;
use crate::text::{chars_of, owned, push_str, seq_eq, trim, trim_seq};

verus! {

/// A JSON value; numbers keep their text.
#[derive(Debug)]
pub enum Json {
    Null,
    Bool(bool),
    Number(String),
    Str(String),
    Array(Vec<Json>),
    Object(Vec<(String, Json)>),
}

/// A JSON value as plain values.
pub enum JsonView {
    Null,
    Bool(bool),
    Number(Seq<char>),
    Str(Seq<char>),
    Array(Seq<JsonView>),
    Object(Seq<(Seq<char>, JsonView)>),
}

/// A JSON value as plain values.
pub open spec fn jview(j: Json) -> JsonView
    decreases j,
{
    match j {
        Json::Null => JsonView::Null,
        Json::Bool(b) => JsonView::Bool(b),
        Json::Number(n) => JsonView::Number(n@),
        Json::Str(s) => JsonView::Str(s@),
        Json::Array(v) => JsonView::Array(jviews(v@)),
        Json::Object(fs) => JsonView::Object(fviews(fs@)),
    }
}

/// Values as plain values.
pub open spec fn jviews(s: Seq<Json>) -> Seq<JsonView>
    decreases s,
{
    if s.len() == 0 {
        Seq::empty()
    } else {
        jviews(s.drop_last()).push(jview(s.last()))
    }
}

/// Object members as plain values.
pub open spec fn fviews(s: Seq<(String, Json)>) -> Seq<(Seq<char>, JsonView)>
    decreases s,
{
    if s.len() == 0 {
        Seq::empty()
    } else {
        fviews(s.drop_last()).push((s.last().0@, jview(s.last().1)))
    }
}

/// A member list of an object, as plain values.
pub type Fields = Seq<(Seq<char>, JsonView)>;

/// The value of the first member named `key`.
pub open spec fn member(fs: Fields, key: Seq<char>) -> Option<JsonView>
    decreases fs.len(),
{
    if fs.len() == 0 {
        None
    } else if fs[0].0 == key {
        Some(fs[0].1)
    } else {
        member(fs.drop_first(), key)
    }
}

/// The members of an object (none for anything else).
pub open spec fn fields_of(v: JsonView) -> Fields {
    match v {
        JsonView::Object(fs) => fs,
        _ => Seq::empty(),
    }
}

/// The value at a path of member names.
pub open spec fn get_path(v: JsonView, path: Seq<Seq<char>>) -> Option<JsonView>
    decreases path.len(),
{
    if path.len() == 0 {
        Some(v)
    } else {
        match v {
            JsonView::Object(fs) => match member(fs, path[0]) {
                Some(c) => get_path(c, path.drop_first()),
                None => None,
            },
            _ => None,
        }
    }
}

/// The trimmed text at a path, when it is a string that is not blank.
pub open spec fn text_at(v: JsonView, path: Seq<Seq<char>>) -> Option<Seq<char>> {
    match get_path(v, path) {
        Some(JsonView::Str(s)) => if trim_seq(s).len() > 0 {
            Some(trim_seq(s))
        } else {
            None
        },
        _ => None,
    }
}

/// The members with the first one named `key` given value `val`, or the
/// member added at the end when there is none.
pub open spec fn upsert(fs: Fields, key: Seq<char>, val: JsonView) -> Fields
    decreases fs.len(),
{
    if fs.len() == 0 {
        seq![(key, val)]
    } else if fs[0].0 == key {
        seq![(key, val)] + fs.drop_first()
    } else {
        seq![fs[0]] + upsert(fs.drop_first(), key, val)
    }
}

/// `value[path] = new`, creating objects on the way: a member on the path
/// that is missing or not an object becomes an empty object first.
pub open spec fn set_path(v: JsonView, path: Seq<Seq<char>>, new: JsonView) -> JsonView
    decreases path.len(),
{
    if path.len() == 0 {
        new
    } else {
        let fs = fields_of(v);
        let child = if path.len() == 1 {
            new
        } else {
            let c = match member(fs, path[0]) {
                Some(c) => if c is Object {
                    c
                } else {
                    JsonView::Object(Seq::empty())
                },
                None => JsonView::Object(Seq::empty()),
            };
            set_path(c, path.drop_first(), new)
        };
        JsonView::Object(upsert(fs, path[0], child))
    }
}

pub(crate) proof fn lemma_fviews(s: Seq<(String, Json)>)
    ensures
        fviews(s).len() == s.len(),
        forall|k: int| 0 <= k < s.len() ==> #[trigger] fviews(s)[k] == (s[k].0@, jview(s[k].1)),
    decreases s.len(),
{
    if s.len() > 0 {
        lemma_fviews(s.drop_last());
    }
}

pub(crate) proof fn lemma_fviews_update(s: Seq<(String, Json)>, i: int, x: (String, Json))
    requires
        0 <= i < s.len(),
    ensures
        fviews(s.update(i, x)) == fviews(s).update(i, (x.0@, jview(x.1))),
{
    lemma_fviews(s);
    lemma_fviews(s.update(i, x));
    assert(fviews(s.update(i, x)) =~= fviews(s).update(i, (x.0@, jview(x.1))));
}

pub(crate) proof fn lemma_fviews_push(s: Seq<(String, Json)>, x: (String, Json))
    ensures
        fviews(s.push(x)) == fviews(s).push((x.0@, jview(x.1))),
{
    assert(s.push(x).drop_last() =~= s);
}

proof fn lemma_member_skip(fs: Fields, key: Seq<char>, k: int)
    requires
        0 <= k < fs.len(),
        fs[k].0 != key,
    ensures
        member(fs.skip(k), key) == member(fs.skip(k + 1), key),
{
    assert(fs.skip(k).drop_first() =~= fs.skip(k + 1));
}

pub(crate) proof fn lemma_upsert_at(fs: Fields, key: Seq<char>, val: JsonView, i: int)
    requires
        0 <= i < fs.len(),
        fs[i].0 == key,
        forall|k: int| 0 <= k < i ==> fs[k].0 != key,
    ensures
        upsert(fs, key, val) == fs.update(i, (key, val)),
        member(fs, key) == Some(fs[i].1),
    decreases i,
{
    if i == 0 {
        assert(seq![(key, val)] + fs.drop_first() =~= fs.update(0, (key, val)));
    } else {
        let t = fs.drop_first();
        assert forall|k: int| 0 <= k < i - 1 implies t[k].0 != key by {
            assert(t[k] == fs[k + 1]);
        }
        lemma_upsert_at(t, key, val, i - 1);
        assert(seq![fs[0]] + t.update(i - 1, (key, val)) =~= fs.update(i, (key, val)));
    }
}

pub(crate) proof fn lemma_upsert_new(fs: Fields, key: Seq<char>, val: JsonView)
    requires
        forall|k: int| 0 <= k < fs.len() ==> fs[k].0 != key,
    ensures
        upsert(fs, key, val) == fs.push((key, val)),
        member(fs, key).is_none(),
    decreases fs.len(),
{
    if fs.len() > 0 {
        let t = fs.drop_first();
        assert forall|k: int| 0 <= k < t.len() implies t[k].0 != key by {
            assert(t[k] == fs[k + 1]);
        }
        lemma_upsert_new(t, key, val);
        assert(seq![fs[0]] + t.push((key, val)) =~= fs.push((key, val)));
    }
}

pub(crate) fn key_index(fs: &Vec<(String, Json)>, key: &str) -> (r: Option<usize>)
    ensures
        match r {
            Some(i) => i < fs.len() && fs@[i as int].0@ == key@ && forall|k: int| 0 <= k < i ==> fs@[k].0@ != key@,
            None => forall|k: int| 0 <= k < fs.len() ==> fs@[k].0@ != key@,
        },
{
    let kv = chars_of(key);
    let mut i: usize = 0;
    while i < fs.len()
        invariant
            i <= fs.len(),
            kv@ == key@,
            forall|k: int| 0 <= k < i ==> fs@[k].0@ != key@,
        decreases fs.len() - i,
    {
        if seq_eq(&chars_of(fs[i].0.as_str()), &kv) {
            return Some(i);
        }
        i = i + 1;
    }
    None
}

/// The string member `key` of an object.
pub open spec fn str_member(v: JsonView, key: Seq<char>) -> Option<Seq<char>> {
    match member(fields_of(v), key) {
        Some(JsonView::Str(s)) => Some(s),
        _ => None,
    }
}

/// Member `key` of an object (none for anything else).
pub fn member_of<'a>(v: &'a Json, key: &str) -> (r: Option<&'a Json>)
    ensures
        match r {
            Some(x) => member(fields_of(jview(*v)), key@) == Some(jview(*x)),
            None => member(fields_of(jview(*v)), key@).is_none(),
        },
{
    match v {
        Json::Object(fs) => {
            proof {
                lemma_fviews(fs@);
            }
            match key_index(fs, key) {
                Some(i) => {
                    proof {
                        lemma_upsert_at(fviews(fs@), key@, JsonView::Null, i as int);
                    }
                    Some(&fs[i].1)
                },
                None => {
                    proof {
                        lemma_upsert_new(fviews(fs@), key@, JsonView::Null);
                    }
                    None
                },
            }
        },
        _ => None,
    }
}

/// The trimmed text at a path of a JSON value, when it is a string that is
/// not blank.
pub fn text_at_path(v: &Json, path: &Vec<String>) -> (r: Option<String>)
    ensures
        match r {
            Some(t) => text_at(jview(*v), strs(*path)) == Some(t@),
            None => text_at(jview(*v), strs(*path)).is_none(),
        },
{
    let ghost p = strs(*path);
    let mut cur: &Json = v;
    let mut k: usize = 0;
    assert(p.skip(0) =~= p);
    while k < path.len()
        invariant
            k <= path.len(),
            p == strs(*path),
            get_path(jview(*v), p) == get_path(jview(*cur), p.skip(k as int)),
        decreases path.len() - k,
    {
        let ghost rest = p.skip(k as int);
        assert(rest[0] == path@[k as int]@);
        assert(rest.drop_first() =~= p.skip(k + 1));
        match cur {
            Json::Object(fs) => {
                proof {
                    lemma_fviews(fs@);
                }
                match key_index(fs, path[k].as_str()) {
                    Some(i) => {
                        proof {
                            lemma_upsert_at(fviews(fs@), rest[0], JsonView::Null, i as int);
                        }
                        cur = &fs[i].1;
                    },
                    None => {
                        proof {
                            lemma_upsert_new(fviews(fs@), rest[0], JsonView::Null);
                        }
                        return None;
                    },
                }
            },
            _ => {
                return None;
            },
        }
        k = k + 1;
    }
    assert(p.skip(k as int) =~= Seq::<Seq<char>>::empty());
    match cur {
        Json::Str(s) => {
            let t = trim(s.as_str());
            if t.as_str().is_empty() {
                None
            } else {
                Some(t)
            }
        },
        _ => None,
    }
}

/// `value[path] = new` on a JSON value that is an object or null, creating
/// objects on the way.
pub fn set_at_path(v: Json, path: &Vec<String>, from: usize, new: Json) -> (r: Json)
    requires
        from <= path.len(),
        from < path.len() ==> (v is Object || v is Null),
    ensures
        jview(r) == set_path(jview(v), strs(*path).skip(from as int), jview(new)),
    decreases path.len() - from,
{
    let ghost p = strs(*path).skip(from as int);
    if from == path.len() {
        assert(p =~= Seq::<Seq<char>>::empty());
        return new;
    }
    assert(p[0] == path@[from as int]@);
    assert(p.drop_first() =~= strs(*path).skip(from + 1));
    let ghost vv = jview(v);
    let mut fs: Vec<(String, Json)> = match v {
        Json::Object(fs) => fs,
        _ => Vec::new(),
    };
    assert(fviews(fs@) == fields_of(vv)) by {
        if !(vv is Object) {
            assert(fviews(fs@) =~= Seq::<(Seq<char>, JsonView)>::empty());
        }
    }
    proof {
        lemma_fviews(fs@);
    }
    let key = path[from].clone();
    let idx = key_index(&fs, key.as_str());
    let ghost fv = fviews(fs@);
    match idx {
        Some(i) => {
            proof {
                lemma_upsert_at(fv, p[0], JsonView::Null, i as int);
            }
            let ghost orig = fs@;
            let (k0, old_child) = fs.remove(i);
            let ghost rem = fs@;
            let child = if from + 1 == path.len() {
                new
            } else {
                let c = match old_child {
                    Json::Object(x) => Json::Object(x),
                    _ => Json::Object(Vec::new()),
                };
                assert(jview(c) == (if jview(old_child) is Object { jview(old_child) } else { JsonView::Object(Seq::empty()) })) by {
                    if !(old_child is Object) {
                        assert(fviews(Seq::<(String, Json)>::empty()) =~= Seq::<(Seq<char>, JsonView)>::empty());
                    }
                }
                set_at_path(c, path, from + 1, new)
            };
            let ghost cv = jview(child);
            fs.insert(i, (k0, child));
            proof {
                lemma_upsert_at(fv, p[0], cv, i as int);
                assert(fs@ =~= orig.update(i as int, (k0, child)));
                lemma_fviews_update(orig, i as int, (k0, child));
            }
            assert(fviews(fs@) =~= fv.update(i as int, (p[0], cv)));
            Json::Object(fs)
        },
        None => {
            proof {
                lemma_upsert_new(fv, p[0], JsonView::Null);
            }
            let child = if from + 1 == path.len() {
                new
            } else {
                let ghost empty_view = JsonView::Object(Seq::<(Seq<char>, JsonView)>::empty());
                let e = Json::Object(Vec::new());
                assert(jview(e) == empty_view) by {
                    assert(fviews(Seq::<(String, Json)>::empty()) =~= Seq::<(Seq<char>, JsonView)>::empty());
                }
                set_at_path(e, path, from + 1, new)
            };
            let ghost cv = jview(child);
            let ghost before = fs@;
            fs.push((key, child));
            proof {
                lemma_upsert_new(fv, p[0], cv);
                lemma_fviews_push(before, (key, child));
            }
            Json::Object(fs)
        },
    }
}

/// A key-store write: account and secret.
pub type SecretWrite = (Seq<char>, Seq<char>);

/// Moving one slot's secret out: when the slot holds non-blank text other
/// than the placeholder, that (trimmed) text goes to the key store under
/// `account` and the slot gets the placeholder.
pub open spec fn extract_slot(v: JsonView, path: Seq<Seq<char>>, account: Seq<char>, ph: Seq<char>) -> (Seq<SecretWrite>, JsonView) {
    match text_at(v, path) {
        Some(t) => if t == ph {
            (Seq::empty(), v)
        } else {
            (seq![(account, t)], set_path(v, path, JsonView::Str(ph)))
        },
        None => (Seq::empty(), v),
    }
}

/// The secret slots at fixed places: path and key-store account.
pub open spec fn fixed_slots() -> Seq<(Seq<Seq<char>>, Seq<char>)> {
    seq![
        (seq!["llm"@, "apiKey"@], "llm.apiKey"@),
        (seq!["zentao"@, "sessionCookie"@], "zentao.sessionCookie"@),
        (seq!["channels"@, "telegram"@, "botToken"@], "channels.telegram.botToken"@),
        (seq!["channels"@, "qqbot"@, "appSecret"@], "channels.qqbot.appSecret"@),
    ]
}

/// The fixed slots among the first `n`, extracted in order.
pub open spec fn extract_fixed(v: JsonView, ph: Seq<char>, n: int) -> (Seq<SecretWrite>, JsonView)
    decreases n,
{
    if n <= 0 {
        (Seq::empty(), v)
    } else {
        let (w, v1) = extract_fixed(v, ph, n - 1);
        let (w2, v2) = extract_slot(v1, fixed_slots()[n - 1].0, fixed_slots()[n - 1].1, ph);
        (w + w2, v2)
    }
}

/// The key-store account of a model profile's API key.
pub open spec fn profile_account(id: Seq<char>) -> Seq<char> {
    "llm.profile."@ + id + ".apiKey"@
}

/// A profile's secret moved out, for profiles with a string `id`.
pub open spec fn extract_profile(p: JsonView, ph: Seq<char>) -> (Seq<SecretWrite>, JsonView) {
    match member(fields_of(p), "id"@) {
        Some(JsonView::Str(id)) => extract_slot(p, seq!["apiKey"@], profile_account(id), ph),
        _ => (Seq::empty(), p),
    }
}

/// The first `n` profiles with their secrets moved out, in order.
pub open spec fn extract_profiles(ps: Seq<JsonView>, ph: Seq<char>, n: int) -> (Seq<SecretWrite>, Seq<JsonView>)
    decreases n,
{
    if n <= 0 {
        (Seq::empty(), Seq::empty())
    } else {
        let (w, qs) = extract_profiles(ps, ph, n - 1);
        let (w2, q) = extract_profile(ps[n - 1], ph);
        (w + w2, qs.push(q))
    }
}

/// Secrets moved out of the settings before they are written: the fixed
/// slots, then the API key of each model profile (under `llmProfiles`); the
/// key-store writes in order, and the settings with placeholders.
pub open spec fn strip_plan(v: JsonView, ph: Seq<char>) -> (Seq<SecretWrite>, JsonView) {
    let (w1, v1) = extract_fixed(v, ph, 4);
    match v1 {
        JsonView::Object(fs) => match member(fs, "llmProfiles"@) {
            Some(JsonView::Array(ps)) => {
                let (w2, qs) = extract_profiles(ps, ph, ps.len() as int);
                (w1 + w2, JsonView::Object(upsert(fs, "llmProfiles"@, JsonView::Array(qs))))
            },
            _ => (w1, v1),
        },
        _ => (w1, v1),
    }
}

/// Key-store writes as plain values.
pub open spec fn writes_view(w: Seq<(String, String)>) -> Seq<SecretWrite> {
    w.map_values(|x: (String, String)| (x.0@, x.1@))
}

fn path_of(keys: &[&str]) -> (r: Vec<String>)
    ensures
        strs(r) == keys@.map_values(|k: &str| k@),
{
    let mut out: Vec<String> = Vec::new();
    let mut i: usize = 0;
    while i < keys.len()
        invariant
            i <= keys.len(),
            strs(out) == keys@.take(i as int).map_values(|k: &str| k@),
        decreases keys.len() - i,
    {
        let ghost before = strs(out);
        out.push(owned(keys[i]));
        assert(strs(out) =~= before.push(keys@[i as int]@));
        assert(keys@.take(i + 1).map_values(|k: &str| k@) =~= keys@.take(i as int).map_values(|k: &str| k@).push(keys@[i as int]@));
        i = i + 1;
    }
    assert(keys@.take(keys.len() as int) =~= keys@);
    out
}

proof fn lemma_object_view(v: Json)
    ensures
        (jview(v) is Object) == (v is Object),
        (jview(v) is Array) == (v is Array),
{
}

fn extract_slot_exec(v: Json, path: &Vec<String>, account: String, ph: &str, writes: &mut Vec<(String, String)>) -> (r: Json)
    requires
        path.len() > 0,
    ensures
        ({
            let (w, nv) = extract_slot(jview(v), strs(*path), account@, ph@);
            &&& writes_view(final(writes)@) == writes_view(old(writes)@) + w
            &&& jview(r) == nv
        }),
{
    let ghost before = writes_view(writes@);
    match text_at_path(&v, path) {
        Some(t) => {
            if seq_eq(&chars_of(t.as_str()), &chars_of(ph)) {
                assert(writes_view(writes@) =~= before + Seq::empty());
                v
            } else {
                proof {
                    lemma_object_view(v);
                    assert(strs(*path).len() > 0);
                }
                let ghost tv = t@;
                let nv = set_at_path(v, path, 0, Json::Str(owned(ph)));
                assert(strs(*path).skip(0) =~= strs(*path));
                writes.push((account, t));
                assert(writes_view(writes@) =~= before + seq![(account@, tv)]);
                nv
            }
        },
        None => {
            assert(writes_view(writes@) =~= before + Seq::empty());
            v
        },
    }
}

fn extract_profile_exec(p: Json, ph: &str, writes: &mut Vec<(String, String)>) -> (r: Json)
    ensures
        ({
            let (w, np) = extract_profile(jview(p), ph@);
            &&& writes_view(final(writes)@) == writes_view(old(writes)@) + w
            &&& jview(r) == np
        }),
{
    let ghost before = writes_view(writes@);
    let id: Option<String> = match &p {
        Json::Object(fs) => {
            proof {
                lemma_fviews(fs@);
            }
            match key_index(fs, "id") {
                Some(i) => {
                    proof {
                        lemma_upsert_at(fviews(fs@), "id"@, JsonView::Null, i as int);
                    }
                    match &fs[i].1 {
                        Json::Str(s) => Some(s.clone()),
                        _ => None,
                    }
                },
                None => {
                    proof {
                        lemma_upsert_new(fviews(fs@), "id"@, JsonView::Null);
                    }
                    None
                },
            }
        },
        _ => None,
    };
    match id {
        Some(id) => {
            let mut account = owned("llm.profile.");
            push_str(&mut account, id.as_str());
            push_str(&mut account, ".apiKey");
            let path = path_of(&["apiKey"]);
            proof {
                reveal_strlit("apiKey");
                assert(strs(path) =~= seq!["apiKey"@]);
            }
            extract_slot_exec(p, &path, account, ph, writes)
        },
        None => {
            assert(writes_view(writes@) =~= before + Seq::empty());
            p
        },
    }
}

/// Moves the secrets out of the settings: returns the settings with
/// placeholders and the key-store writes to make, in order.
pub fn strip_secrets(v: Json, placeholder: &str) -> (r: (Json, Vec<(String, String)>))
    ensures
        strip_plan(jview(v), placeholder@) == (writes_view(r.1@), jview(r.0)),
{
    let mut writes: Vec<(String, String)> = Vec::new();
    let ghost v0 = jview(v);
    proof {
        reveal_strlit("llm");
        reveal_strlit("apiKey");
        reveal_strlit("zentao");
        reveal_strlit("sessionCookie");
        reveal_strlit("channels");
        reveal_strlit("telegram");
        reveal_strlit("botToken");
        reveal_strlit("qqbot");
        reveal_strlit("appSecret");
    }
    assert(extract_fixed(v0, placeholder@, 0) == (writes_view(writes@), v0)) by {
        assert(writes_view(writes@) =~= Seq::<SecretWrite>::empty());
    }
    let p1 = path_of(&["llm", "apiKey"]);
    assert(strs(p1) =~= fixed_slots()[0].0);
    let v = extract_slot_exec(v, &p1, owned("llm.apiKey"), placeholder, &mut writes);
    assert(extract_fixed(v0, placeholder@, 1) == (writes_view(writes@), jview(v)));
    let p2 = path_of(&["zentao", "sessionCookie"]);
    assert(strs(p2) =~= fixed_slots()[1].0);
    let v = extract_slot_exec(v, &p2, owned("zentao.sessionCookie"), placeholder, &mut writes);
    assert(extract_fixed(v0, placeholder@, 2) == (writes_view(writes@), jview(v)));
    let p3 = path_of(&["channels", "telegram", "botToken"]);
    assert(strs(p3) =~= fixed_slots()[2].0);
    let v = extract_slot_exec(v, &p3, owned("channels.telegram.botToken"), placeholder, &mut writes);
    assert(extract_fixed(v0, placeholder@, 3) == (writes_view(writes@), jview(v)));
    let p4 = path_of(&["channels", "qqbot", "appSecret"]);
    assert(strs(p4) =~= fixed_slots()[3].0);
    let v = extract_slot_exec(v, &p4, owned("channels.qqbot.appSecret"), placeholder, &mut writes);
    assert(extract_fixed(v0, placeholder@, 4) == (writes_view(writes@), jview(v)));
    let ghost w1 = writes_view(writes@);
    let ghost v1 = jview(v);
    match v {
        Json::Object(mut fs) => {
            proof {
                lemma_fviews(fs@);
            }
            match key_index(&fs, "llmProfiles") {
                Some(i) => {
                    proof {
                        lemma_upsert_at(fviews(fs@), "llmProfiles"@, JsonView::Null, i as int);
                    }
                    let ghost orig = fs@;
                    let (k0, item) = fs.remove(i);
                    match item {
                        Json::Array(ps) => {
                            let ghost pv = jviews(ps@);
                            let mut out: Vec<Json> = Vec::new();
                            let mut rest = ps;
                            let ghost mut done: Seq<Json> = Seq::empty();
                            let ghost all = rest@;
                            proof {
                                lemma_jviews(all);
                            }
                            while rest.len() > 0
                                invariant
                                    done + rest@ == all,
                                    pv == jviews(all),
                                    pv.len() == all.len(),
                                    forall|k: int| 0 <= k < all.len() ==> #[trigger] pv[k] == jview(all[k]),
                                    ({
                                        let (w2, qs) = extract_profiles(pv, placeholder@, done.len() as int);
                                        &&& writes_view(writes@) == w1 + w2
                                        &&& jviews(out@) == qs
                                    }),
                                decreases rest.len(),
                            {
                                let ghost rv = rest@;
                                let p = rest.remove(0);
                                assert(rest@ =~= rv.drop_first());
                                assert(p == all[done.len() as int]);
                                let ghost wb = writes_view(writes@);
                                let ghost ob = jviews(out@);
                                let q = extract_profile_exec(p, placeholder, &mut writes);
                                let ghost qv = jview(q);
                                let ghost oseq = out@;
                                out.push(q);
                                assert(out@.drop_last() =~= oseq);
                                assert(out@.last() == q);
                                proof {
                                    assert(jviews(out@) == ob.push(qv));
                                    let (wa, qa) = extract_profiles(pv, placeholder@, done.len() as int);
                                    assert(wb == w1 + wa);
                                    assert(w1 + wa + extract_profile(pv[done.len() as int], placeholder@).0 =~= w1 + (wa + extract_profile(pv[done.len() as int], placeholder@).0));
                                    assert(done.push(p) + rest@ =~= all);
                                    done = done.push(p);
                                }
                            }
                            assert(done =~= all);
                            let ghost qsv = jviews(out@);
                            let ghost before_fs = fs@;
                            fs.insert(i, (k0, Json::Array(out)));
                            proof {
                                assert(fs@ =~= orig.update(i as int, (k0, Json::Array(out))));
                                lemma_fviews_update(orig, i as int, (k0, Json::Array(out)));
                                lemma_upsert_at(fviews(orig), "llmProfiles"@, JsonView::Array(qsv), i as int);
                            }
                            (Json::Object(fs), writes)
                        },
                        other => {
                            fs.insert(i, (k0, other));
                            assert(fs@ =~= orig);
                            (Json::Object(fs), writes)
                        },
                    }
                },
                None => {
                    proof {
                        lemma_upsert_new(fviews(fs@), "llmProfiles"@, JsonView::Null);
                    }
                    (Json::Object(fs), writes)
                },
            }
        },
        other => (other, writes),
    }
}

pub(crate) proof fn lemma_jviews(s: Seq<Json>)
    ensures
        jviews(s).len() == s.len(),
        forall|k: int| 0 <= k < s.len() ==> #[trigger] jviews(s)[k] == jview(s[k]),
    decreases s.len(),
{
    if s.len() > 0 {
        lemma_jviews(s.drop_last());
    }
}

pub(crate) proof fn lemma_member_upsert(fs: Fields, key: Seq<char>, val: JsonView, other: Seq<char>)
    ensures
        member(upsert(fs, key, val), key) == Some(val),
        other != key ==> member(upsert(fs, key, val), other) == member(fs, other),
        member(fs, key) == Some(val) ==> upsert(fs, key, val) == fs,
    decreases fs.len(),
{
    let u = upsert(fs, key, val);
    if fs.len() == 0 {
        assert(u =~= seq![(key, val)]);
        assert(u[0] == (key, val));
        assert(u.drop_first() =~= Seq::<(Seq<char>, JsonView)>::empty());
        if other != key {
            assert(member(u, other) == member(u.drop_first(), other));
            assert(member(u.drop_first(), other).is_none());
        }
    } else if fs[0].0 == key {
        assert(u =~= seq![(key, val)] + fs.drop_first());
        assert(u[0] == (key, val));
        assert(u.drop_first() =~= fs.drop_first());
        if other != key {
            assert(member(u, other) == member(u.drop_first(), other));
            assert(member(fs, other) == member(fs.drop_first(), other));
        }
        if member(fs, key) == Some(val) {
            assert(u =~= fs);
        }
    } else {
        lemma_member_upsert(fs.drop_first(), key, val, other);
        assert(u =~= seq![fs[0]] + upsert(fs.drop_first(), key, val));
        assert(u[0] == fs[0]);
        assert(u.drop_first() =~= upsert(fs.drop_first(), key, val));
        if other != key {
            if fs[0].0 == other {
                assert(member(u, other) == Some(fs[0].1));
            } else {
                assert(member(u, other) == member(u.drop_first(), other));
                assert(member(fs, other) == member(fs.drop_first(), other));
            }
        }
        if member(fs, key) == Some(val) {
            assert(u =~= fs);
        }
    }
}

proof fn lemma_get_set_same(v: JsonView, p: Seq<Seq<char>>, x: JsonView)
    ensures
        get_path(set_path(v, p, x), p) == Some(x),
    decreases p.len(),
{
    if p.len() > 0 {
        let fs = fields_of(v);
        lemma_member_upsert(fs, p[0], JsonView::Null, p[0]);
        if p.len() == 1 {
            lemma_member_upsert(fs, p[0], x, p[0]);
            assert(p.drop_first().len() == 0);
            assert(get_path(x, p.drop_first()) == Some(x));
        } else {
            let c = match member(fs, p[0]) {
                Some(c) => if c is Object { c } else { JsonView::Object(Seq::empty()) },
                None => JsonView::Object(Seq::empty()),
            };
            lemma_get_set_same(c, p.drop_first(), x);
            lemma_member_upsert(fs, p[0], set_path(c, p.drop_first(), x), p[0]);
        }
    }
}

/// Two paths part ways at position `k`.
pub open spec fn parts_at(p1: Seq<Seq<char>>, p2: Seq<Seq<char>>, k: int) -> bool {
    0 <= k < p1.len() && k < p2.len() && p1[k] != p2[k] && forall|j: int| 0 <= j < k ==> p1[j] == p2[j]
}

proof fn lemma_get_set_other(v: JsonView, p1: Seq<Seq<char>>, p2: Seq<Seq<char>>, x: JsonView, k: int)
    requires
        parts_at(p1, p2, k),
    ensures
        get_path(set_path(v, p2, x), p1) == get_path(v, p1),
    decreases k,
{
    let fs = fields_of(v);
    if k == 0 {
        let child = if p2.len() == 1 {
            x
        } else {
            let c = match member(fs, p2[0]) {
                Some(c) => if c is Object { c } else { JsonView::Object(Seq::empty()) },
                None => JsonView::Object(Seq::empty()),
            };
            set_path(c, p2.drop_first(), x)
        };
        lemma_member_upsert(fs, p2[0], child, p1[0]);
    } else {
        assert(p1[0] == p2[0]);
        let r1 = p1.drop_first();
        let r2 = p2.drop_first();
        assert(parts_at(r1, r2, k - 1)) by {
            assert forall|j: int| 0 <= j < k - 1 implies r1[j] == r2[j] by {
                assert(r1[j] == p1[j + 1] && r2[j] == p2[j + 1]);
            }
        }
        let c = match member(fs, p2[0]) {
            Some(c) => if c is Object { c } else { JsonView::Object(Seq::empty()) },
            None => JsonView::Object(Seq::empty()),
        };
        lemma_get_set_other(c, r1, r2, x, k - 1);
        lemma_member_upsert(fs, p2[0], set_path(c, r2, x), p1[0]);
        assert(r1.len() > 0);
        if member(fs, p2[0]).is_some() && !(member(fs, p2[0]).unwrap() is Object) {
            assert(get_path(member(fs, p2[0]).unwrap(), r1).is_none());
            assert(get_path(JsonView::Object(Seq::empty()), r1).is_none());
        }
        if member(fs, p2[0]).is_none() {
            assert(get_path(JsonView::Object(Seq::empty()), r1).is_none());
        }
    }
}

/// A slot holds no text, or the placeholder.
pub open spec fn slot_clear(v: JsonView, path: Seq<Seq<char>>, ph: Seq<char>) -> bool {
    text_at(v, path).is_none() || text_at(v, path) == Some(ph)
}

proof fn lemma_extract_clears(v: JsonView, path: Seq<Seq<char>>, account: Seq<char>, ph: Seq<char>)
    requires
        trim_seq(ph) == ph,
        ph.len() > 0,
        path.len() > 0,
    ensures
        slot_clear(extract_slot(v, path, account, ph).1, path, ph),
{
    match text_at(v, path) {
        Some(t) => if t != ph {
            lemma_get_set_same(v, path, JsonView::Str(ph));
        },
        None => {},
    }
}

proof fn lemma_extract_keeps_other(v: JsonView, path: Seq<Seq<char>>, account: Seq<char>, ph: Seq<char>, q: Seq<Seq<char>>, k: int)
    requires
        parts_at(q, path, k),
    ensures
        get_path(extract_slot(v, path, account, ph).1, q) == get_path(v, q),
{
    match text_at(v, path) {
        Some(t) => if t != ph {
            lemma_get_set_other(v, q, path, JsonView::Str(ph), k);
        },
        None => {},
    }
}

proof fn lemma_literals_differ()
    ensures
        "llm"@ != "zentao"@,
        "llm"@ != "channels"@,
        "zentao"@ != "channels"@,
        "telegram"@ != "qqbot"@,
        "llmProfiles"@ != "llm"@,
        "llmProfiles"@ != "zentao"@,
        "llmProfiles"@ != "channels"@,
        "apiKey"@ != "id"@,
{
    reveal_strlit("llm");
    reveal_strlit("zentao");
    reveal_strlit("channels");
    reveal_strlit("telegram");
    reveal_strlit("qqbot");
    reveal_strlit("llmProfiles");
    reveal_strlit("apiKey");
    reveal_strlit("id");
    assert("llm"@.len() != "zentao"@.len());
    assert("llm"@.len() != "channels"@.len());
    assert("zentao"@.len() != "channels"@.len());
    assert("telegram"@.len() != "qqbot"@.len());
    assert("llmProfiles"@.len() != "llm"@.len());
    assert("llmProfiles"@.len() != "zentao"@.len());
    assert("llmProfiles"@[0] != "channels"@[0]);
    assert("apiKey"@.len() != "id"@.len());
}

/// Fixed slots `i` and `j` (i < j) part ways at some position.
proof fn lemma_fixed_part(i: int, j: int) -> (k: int)
    requires
        0 <= i < j < 4,
    ensures
        parts_at(fixed_slots()[i].0, fixed_slots()[j].0, k),
        parts_at(fixed_slots()[j].0, fixed_slots()[i].0, k),
{
    lemma_literals_differ();
    if i == 2 && j == 3 {
        1
    } else {
        0
    }
}

proof fn lemma_fixed_clear(v: JsonView, ph: Seq<char>, n: int)
    requires
        trim_seq(ph) == ph,
        ph.len() > 0,
        0 <= n <= 4,
    ensures
        forall|i: int| 0 <= i < n ==> #[trigger] slot_clear(extract_fixed(v, ph, n).1, fixed_slots()[i].0, ph),
    decreases n,
{
    if n > 0 {
        lemma_fixed_clear(v, ph, n - 1);
        let v1 = extract_fixed(v, ph, n - 1).1;
        let slot = fixed_slots()[n - 1];
        lemma_extract_clears(v1, slot.0, slot.1, ph);
        assert forall|i: int| 0 <= i < n implies #[trigger] slot_clear(extract_fixed(v, ph, n).1, fixed_slots()[i].0, ph) by {
            if i < n - 1 {
                let k = lemma_fixed_part(i, n - 1);
                lemma_extract_keeps_other(v1, slot.0, slot.1, ph, fixed_slots()[i].0, k);
                assert(slot_clear(v1, fixed_slots()[i].0, ph));
            }
        }
    }
}

proof fn lemma_fixed_noop(v: JsonView, ph: Seq<char>, n: int)
    requires
        0 <= n <= 4,
        forall|i: int| 0 <= i < 4 ==> #[trigger] slot_clear(v, fixed_slots()[i].0, ph),
    ensures
        extract_fixed(v, ph, n) == (Seq::<SecretWrite>::empty(), v),
    decreases n,
{
    if n > 0 {
        lemma_fixed_noop(v, ph, n - 1);
        assert(slot_clear(v, fixed_slots()[n - 1].0, ph));
        assert(Seq::<SecretWrite>::empty() + Seq::<SecretWrite>::empty() =~= Seq::<SecretWrite>::empty());
    }
}

proof fn lemma_clear_noop(v: JsonView, path: Seq<Seq<char>>, account: Seq<char>, ph: Seq<char>)
    requires
        slot_clear(v, path, ph),
    ensures
        extract_slot(v, path, account, ph) == (Seq::<SecretWrite>::empty(), v),
{
}

proof fn lemma_profile_settles(p: JsonView, ph: Seq<char>)
    requires
        trim_seq(ph) == ph,
        ph.len() > 0,
    ensures
        extract_profile(extract_profile(p, ph).1, ph) == (Seq::<SecretWrite>::empty(), extract_profile(p, ph).1),
{
    let q = extract_profile(p, ph).1;
    match member(fields_of(p), "id"@) {
        Some(JsonView::Str(id)) => {
            let path = seq!["apiKey"@];
            lemma_extract_clears(p, path, profile_account(id), ph);
            if q != p {
                lemma_literals_differ();
                lemma_member_upsert(fields_of(p), "apiKey"@, JsonView::Str(ph), "id"@);
                assert(path.drop_first().len() == 0);
                assert(q == JsonView::Object(upsert(fields_of(p), "apiKey"@, JsonView::Str(ph))));
            }
            assert(member(fields_of(q), "id"@) == Some(JsonView::Str(id)));
            lemma_clear_noop(q, path, profile_account(id), ph);
        },
        _ => {},
    }
}

proof fn lemma_profiles_shape(ps: Seq<JsonView>, ph: Seq<char>, n: int)
    requires
        0 <= n <= ps.len(),
    ensures
        extract_profiles(ps, ph, n).1.len() == n,
        forall|i: int| 0 <= i < n ==> #[trigger] extract_profiles(ps, ph, n).1[i] == extract_profile(ps[i], ph).1,
    decreases n,
{
    if n > 0 {
        lemma_profiles_shape(ps, ph, n - 1);
    }
}

proof fn lemma_profiles_fixed(qs: Seq<JsonView>, ph: Seq<char>, n: int)
    requires
        0 <= n <= qs.len(),
        forall|i: int| 0 <= i < qs.len() ==> #[trigger] extract_profile(qs[i], ph) == (Seq::<SecretWrite>::empty(), qs[i]),
    ensures
        extract_profiles(qs, ph, n) == (Seq::<SecretWrite>::empty(), qs.take(n)),
    decreases n,
{
    if n > 0 {
        lemma_profiles_fixed(qs, ph, n - 1);
        assert(extract_profile(qs[n - 1], ph) == (Seq::<SecretWrite>::empty(), qs[n - 1]));
        assert(qs.take(n - 1).push(qs[n - 1]) =~= qs.take(n));
        assert(Seq::<SecretWrite>::empty() + Seq::<SecretWrite>::empty() =~= Seq::<SecretWrite>::empty());
    } else {
        assert(qs.take(0) =~= Seq::<JsonView>::empty());
    }
}

/// Stripping settles the settings: once stripped (with a placeholder that
/// is not blank and has no surrounding blanks), the settings hold no secret
/// left to move, so stripping them again writes nothing to the key store
/// and changes nothing. In particular every fixed secret slot then holds
/// the placeholder or no text at all.
pub proof fn lemma_strip_settles(v: JsonView, ph: Seq<char>)
    requires
        trim_seq(ph) == ph,
        ph.len() > 0,
    ensures
        strip_plan(strip_plan(v, ph).1, ph) == (Seq::<SecretWrite>::empty(), strip_plan(v, ph).1),
        forall|i: int| 0 <= i < 4 ==> #[trigger] slot_clear(strip_plan(v, ph).1, fixed_slots()[i].0, ph),
{
    let v1 = extract_fixed(v, ph, 4).1;
    let w1 = extract_fixed(v, ph, 4).0;
    lemma_fixed_clear(v, ph, 4);
    lemma_literals_differ();
    let st = strip_plan(v, ph).1;
    let mut profiles_branch = false;
    match v1 {
        JsonView::Object(fs) => match member(fs, "llmProfiles"@) {
            Some(JsonView::Array(ps)) => {
                profiles_branch = true;
                let qs = extract_profiles(ps, ph, ps.len() as int).1;
                let lp = seq!["llmProfiles"@];
                assert(lp.drop_first().len() == 0);
                assert(st == set_path(v1, lp, JsonView::Array(qs)));
                assert forall|i: int| 0 <= i < 4 implies #[trigger] slot_clear(st, fixed_slots()[i].0, ph) by {
                    assert(parts_at(fixed_slots()[i].0, lp, 0));
                    lemma_get_set_other(v1, fixed_slots()[i].0, lp, JsonView::Array(qs), 0);
                    assert(slot_clear(v1, fixed_slots()[i].0, ph));
                }
                lemma_fixed_noop(st, ph, 4);
                let fs2 = upsert(fs, "llmProfiles"@, JsonView::Array(qs));
                lemma_member_upsert(fs, "llmProfiles"@, JsonView::Array(qs), "llmProfiles"@);
                lemma_profiles_shape(ps, ph, ps.len() as int);
                assert forall|i: int| 0 <= i < qs.len() implies #[trigger] extract_profile(qs[i], ph) == (Seq::<SecretWrite>::empty(), qs[i]) by {
                    lemma_profile_settles(ps[i], ph);
                }
                lemma_profiles_fixed(qs, ph, qs.len() as int);
                assert(qs.take(qs.len() as int) =~= qs);
                lemma_member_upsert(fs2, "llmProfiles"@, JsonView::Array(qs), "llmProfiles"@);
                assert(Seq::<SecretWrite>::empty() + Seq::<SecretWrite>::empty() =~= Seq::<SecretWrite>::empty());
            },
            _ => {},
        },
        _ => {},
    }
    if !profiles_branch {
        assert(st == v1);
        lemma_fixed_noop(v1, ph, 4);
    }
}

/// Marking one slot as saved: when its account is among those the key store
/// holds, the slot gets the placeholder (objects created on the way).
pub open spec fn mark_slot(v: JsonView, path: Seq<Seq<char>>, account: Seq<char>, saved: Seq<Seq<char>>, ph: Seq<char>) -> JsonView {
    if saved.contains(account) {
        set_path(v, path, JsonView::Str(ph))
    } else {
        v
    }
}

/// The fixed slots among the first `n` marked, in order.
pub open spec fn mark_fixed(v: JsonView, saved: Seq<Seq<char>>, ph: Seq<char>, n: int) -> JsonView
    decreases n,
{
    if n <= 0 {
        v
    } else {
        mark_slot(mark_fixed(v, saved, ph, n - 1), fixed_slots()[n - 1].0, fixed_slots()[n - 1].1, saved, ph)
    }
}

/// A profile marked, for profiles with a string `id`.
pub open spec fn mark_profile(p: JsonView, saved: Seq<Seq<char>>, ph: Seq<char>) -> JsonView {
    match member(fields_of(p), "id"@) {
        Some(JsonView::Str(id)) => mark_slot(p, seq!["apiKey"@], profile_account(id), saved, ph),
        _ => p,
    }
}

/// The settings as shown to the user: every secret slot whose key-store
/// account is among `saved` shows the placeholder (fixed slots, then the
/// model profiles under `llmProfiles`).
pub open spec fn mark_plan(v: JsonView, saved: Seq<Seq<char>>, ph: Seq<char>) -> JsonView {
    let v1 = mark_fixed(v, saved, ph, 4);
    match v1 {
        JsonView::Object(fs) => match member(fs, "llmProfiles"@) {
            Some(JsonView::Array(ps)) => JsonView::Object(
                upsert(fs, "llmProfiles"@, JsonView::Array(ps.map_values(|p: JsonView| mark_profile(p, saved, ph)))),
            ),
            _ => v1,
        },
        _ => v1,
    }
}

/// The key-store accounts whose presence decides what `mark_secrets`
/// shows: the fixed ones, then one per model profile with a string `id`.
pub open spec fn hydrate_accounts_spec(v: JsonView) -> Seq<Seq<char>> {
    let fixed = seq![fixed_slots()[0].1, fixed_slots()[1].1, fixed_slots()[2].1, fixed_slots()[3].1];
    fixed + match v {
        JsonView::Object(fs) => match member(fs, "llmProfiles"@) {
            Some(JsonView::Array(ps)) => profile_accounts_of(ps),
            _ => Seq::empty(),
        },
        _ => Seq::empty(),
    }
}

/// The accounts of the profiles with a string `id`, in order.
pub open spec fn profile_accounts_of(ps: Seq<JsonView>) -> Seq<Seq<char>>
    decreases ps.len(),
{
    if ps.len() == 0 {
        Seq::empty()
    } else {
        profile_accounts_of(ps.drop_last()) + match member(fields_of(ps.last()), "id"@) {
            Some(JsonView::Str(id)) => seq![profile_account(id)],
            _ => Seq::empty(),
        }
    }
}

fn contains_str(v: &Vec<String>, s: &str) -> (r: bool)
    ensures
        r == strs(*v).contains(s@),
{
    let sv = chars_of(s);
    let mut i: usize = 0;
    while i < v.len()
        invariant
            i <= v.len(),
            sv@ == s@,
            forall|k: int| 0 <= k < i ==> strs(*v)[k] != s@,
        decreases v.len() - i,
    {
        if seq_eq(&chars_of(v[i].as_str()), &sv) {
            assert(strs(*v)[i as int] == s@);
            return true;
        }
        i = i + 1;
    }
    false
}

fn mark_slot_exec(v: Json, path: &Vec<String>, account: &str, saved: &Vec<String>, ph: &str) -> (r: Json)
    requires
        path.len() > 0,
        v is Object || v is Null,
    ensures
        jview(r) == mark_slot(jview(v), strs(*path), account@, strs(*saved), ph@),
        r is Object || r is Null,
{
    if contains_str(saved, account) {
        let r = set_at_path(v, path, 0, Json::Str(owned(ph)));
        assert(strs(*path).skip(0) =~= strs(*path));
        proof {
            lemma_object_view(r);
        }
        r
    } else {
        v
    }
}

fn profile_id(p: &Json) -> (r: Option<String>)
    ensures
        match r {
            Some(id) => member(fields_of(jview(*p)), "id"@) == Some(JsonView::Str(id@)),
            None => !(member(fields_of(jview(*p)), "id"@) matches Some(JsonView::Str(_))),
        },
{
    match p {
        Json::Object(fs) => {
            proof {
                lemma_fviews(fs@);
            }
            match key_index(fs, "id") {
                Some(i) => {
                    proof {
                        lemma_upsert_at(fviews(fs@), "id"@, JsonView::Null, i as int);
                    }
                    match &fs[i].1 {
                        Json::Str(s) => Some(s.clone()),
                        _ => None,
                    }
                },
                None => {
                    proof {
                        lemma_upsert_new(fviews(fs@), "id"@, JsonView::Null);
                    }
                    None
                },
            }
        },
        _ => None,
    }
}

fn account_for(id: &str) -> (r: String)
    ensures
        r@ == profile_account(id@),
{
    let mut a = owned("llm.profile.");
    push_str(&mut a, id);
    push_str(&mut a, ".apiKey");
    a
}

/// The settings shown to the user: every secret slot whose key-store
/// account is among `saved` shows the placeholder. The settings are an
/// object or null.
pub fn mark_secrets(v: Json, saved: &Vec<String>, placeholder: &str) -> (r: Json)
    requires
        v is Object || v is Null,
    ensures
        jview(r) == mark_plan(jview(v), strs(*saved), placeholder@),
{
    let ghost v0 = jview(v);
    let ghost sv = strs(*saved);
    proof {
        reveal_strlit("llm");
        reveal_strlit("apiKey");
        reveal_strlit("zentao");
        reveal_strlit("sessionCookie");
        reveal_strlit("channels");
        reveal_strlit("telegram");
        reveal_strlit("botToken");
        reveal_strlit("qqbot");
        reveal_strlit("appSecret");
    }
    assert(mark_fixed(v0, sv, placeholder@, 0) == v0);
    let p1 = path_of(&["llm", "apiKey"]);
    assert(strs(p1) =~= fixed_slots()[0].0);
    let v = mark_slot_exec(v, &p1, "llm.apiKey", saved, placeholder);
    assert(mark_fixed(v0, sv, placeholder@, 1) == jview(v));
    let p2 = path_of(&["zentao", "sessionCookie"]);
    assert(strs(p2) =~= fixed_slots()[1].0);
    let v = mark_slot_exec(v, &p2, "zentao.sessionCookie", saved, placeholder);
    assert(mark_fixed(v0, sv, placeholder@, 2) == jview(v));
    let p3 = path_of(&["channels", "telegram", "botToken"]);
    assert(strs(p3) =~= fixed_slots()[2].0);
    let v = mark_slot_exec(v, &p3, "channels.telegram.botToken", saved, placeholder);
    assert(mark_fixed(v0, sv, placeholder@, 3) == jview(v));
    let p4 = path_of(&["channels", "qqbot", "appSecret"]);
    assert(strs(p4) =~= fixed_slots()[3].0);
    let v = mark_slot_exec(v, &p4, "channels.qqbot.appSecret", saved, placeholder);
    assert(mark_fixed(v0, sv, placeholder@, 4) == jview(v));
    let ghost v1 = jview(v);
    match v {
        Json::Object(mut fs) => {
            proof {
                lemma_fviews(fs@);
            }
            match key_index(&fs, "llmProfiles") {
                Some(i) => {
                    proof {
                        lemma_upsert_at(fviews(fs@), "llmProfiles"@, JsonView::Null, i as int);
                    }
                    let ghost orig = fs@;
                    let (k0, item) = fs.remove(i);
                    match item {
                        Json::Array(ps) => {
                            let ghost all = ps@;
                            let ghost pv = jviews(all);
                            proof {
                                lemma_jviews(all);
                            }
                            let mut out: Vec<Json> = Vec::new();
                            let mut rest = ps;
                            let ghost mut done: Seq<Json> = Seq::empty();
                            while rest.len() > 0
                                invariant
                                    done + rest@ == all,
                                    pv == jviews(all),
                                    pv.len() == all.len(),
                                    forall|k: int| 0 <= k < all.len() ==> #[trigger] pv[k] == jview(all[k]),
                                    jviews(out@) == pv.take(done.len() as int).map_values(|p: JsonView| mark_profile(p, sv, placeholder@)),
                                    sv == strs(*saved),
                                decreases rest.len(),
                            {
                                let ghost rv = rest@;
                                let p = rest.remove(0);
                                assert(rest@ =~= rv.drop_first());
                                assert(p == all[done.len() as int]);
                                let ghost pview = jview(p);
                                let q = match profile_id(&p) {
                                    Some(id) => {
                                        let acct = account_for(id.as_str());
                                        let path = path_of(&["apiKey"]);
                                        proof {
                                            reveal_strlit("apiKey");
                                            assert(strs(path) =~= seq!["apiKey"@]);
                                            lemma_object_view(p);
                                        }
                                        mark_slot_exec(p, &path, acct.as_str(), saved, placeholder)
                                    },
                                    None => p,
                                };
                                let ghost oseq = out@;
                                out.push(q);
                                proof {
                                    assert(out@.drop_last() =~= oseq);
                                    assert(jviews(out@) == jviews(oseq).push(jview(q)));
                                    assert(pv.take(done.len() as int + 1).map_values(|p: JsonView| mark_profile(p, sv, placeholder@)) =~= pv.take(
                                        done.len() as int,
                                    ).map_values(|p: JsonView| mark_profile(p, sv, placeholder@)).push(mark_profile(pview, sv, placeholder@)));
                                    assert(done.push(p) + rest@ =~= all);
                                    done = done.push(p);
                                }
                            }
                            assert(done =~= all);
                            assert(pv.take(pv.len() as int) =~= pv);
                            let ghost qsv = jviews(out@);
                            fs.insert(i, (k0, Json::Array(out)));
                            proof {
                                assert(fs@ =~= orig.update(i as int, (k0, Json::Array(out))));
                                lemma_fviews_update(orig, i as int, (k0, Json::Array(out)));
                                lemma_upsert_at(fviews(orig), "llmProfiles"@, JsonView::Array(qsv), i as int);
                            }
                            Json::Object(fs)
                        },
                        other => {
                            fs.insert(i, (k0, other));
                            assert(fs@ =~= orig);
                            Json::Object(fs)
                        },
                    }
                },
                None => {
                    proof {
                        lemma_upsert_new(fviews(fs@), "llmProfiles"@, JsonView::Null);
                    }
                    Json::Object(fs)
                },
            }
        },
        other => other,
    }
}

/// The key-store accounts to look up before `mark_secrets`.
pub fn hydrate_accounts(v: &Json) -> (r: Vec<String>)
    ensures
        strs(r) == hydrate_accounts_spec(jview(*v)),
{
    let mut out: Vec<String> = Vec::new();
    out.push(owned("llm.apiKey"));
    out.push(owned("zentao.sessionCookie"));
    out.push(owned("channels.telegram.botToken"));
    out.push(owned("channels.qqbot.appSecret"));
    let ghost fixed = seq![fixed_slots()[0].1, fixed_slots()[1].1, fixed_slots()[2].1, fixed_slots()[3].1];
    assert(strs(out) =~= fixed);
    match v {
        Json::Object(fs) => {
            proof {
                lemma_fviews(fs@);
            }
            match key_index(fs, "llmProfiles") {
                Some(i) => {
                    proof {
                        lemma_upsert_at(fviews(fs@), "llmProfiles"@, JsonView::Null, i as int);
                    }
                    match &fs[i].1 {
                        Json::Array(ps) => {
                            let ghost pv = jviews(ps@);
                            proof {
                                lemma_jviews(ps@);
                            }
                            let mut k: usize = 0;
                            assert(pv.take(0) =~= Seq::<JsonView>::empty());
                            assert(strs(out) =~= fixed + profile_accounts_of(pv.take(0)));
                            while k < ps.len()
                                invariant
                                    k <= ps.len(),
                                    pv == jviews(ps@),
                                    pv.len() == ps.len(),
                                    forall|j: int| 0 <= j < ps.len() ==> #[trigger] pv[j] == jview(ps@[j]),
                                    strs(out) == fixed + profile_accounts_of(pv.take(k as int)),
                                decreases ps.len() - k,
                            {
                                assert(pv.take(k + 1).drop_last() =~= pv.take(k as int));
                                assert(pv.take(k + 1).last() == jview(ps@[k as int]));
                                let ghost before = strs(out);
                                match profile_id(&ps[k]) {
                                    Some(id) => {
                                        out.push(account_for(id.as_str()));
                                        assert(strs(out) =~= before.push(profile_account(id@)));
                                    },
                                    None => {},
                                }
                                assert(strs(out) =~= fixed + profile_accounts_of(pv.take(k + 1)));
                                k = k + 1;
                            }
                            assert(pv.take(ps.len() as int) =~= pv);
                        },
                        _ => {
                            assert(strs(out) =~= fixed + Seq::empty());
                        },
                    }
                },
                None => {
                    proof {
                        lemma_upsert_new(fviews(fs@), "llmProfiles"@, JsonView::Null);
                    }
                    assert(strs(out) =~= fixed + Seq::empty());
                },
            }
        },
        _ => {
            assert(strs(out) =~= fixed + Seq::empty());
        },
    }
    out
}

} // verus!
