//! Saved model profiles in the settings tree (`llmProfiles`, with
//! `activeLlmProfileId` naming the one in use and `llm` holding its
//! settings): saving the current settings as a profile, adding or editing
//! one from a form, switching to one, and deleting one. Copying API keys
//! between key-store entries is the caller's; these functions say which
//! copy the change calls for.

use vstd::prelude::*;
use crate::config_json::{
    Json, JsonView, Fields, jview, jviews, fviews, member, fields_of, upsert, str_member, member_of, key_index,
    lemma_fviews, lemma_fviews_update, lemma_fviews_push, lemma_jviews, lemma_upsert_at,
    lemma_upsert_new, lemma_member_upsert,
};
use crate::config_merge::copy_json;
use crate::text::{chars_of, owned, seq_eq};

verus! {

/// `v[key] = val` on an object; anything else stays as it is.
pub open spec fn obj_insert(v: JsonView, key: Seq<char>, val: JsonView) -> JsonView {
    match v {
        JsonView::Object(fs) => JsonView::Object(upsert(fs, key, val)),
        _ => v,
    }
}

/// `v[key] = val` on an object (`Map::insert`); anything else is returned
/// as it is.
pub fn obj_insert_exec(v: Json, key: &str, val: Json) -> (r: Json)
    ensures
        jview(r) == obj_insert(jview(v), key@, jview(val)),
{
    let ghost gv = jview(val);
    match v {
        Json::Object(fs) => {
            let mut fs = fs;
            proof {
                lemma_fviews(fs@);
            }
            match key_index(&fs, key) {
                Some(i) => {
                    proof {
                        lemma_upsert_at(fviews(fs@), key@, gv, i as int);
                    }
                    let ghost before = fs@;
                    let k = owned(key);
                    let ghost pair = (k, val);
                    fs.set(i, (k, val));
                    proof {
                        lemma_fviews_update(before, i as int, pair);
                    }
                    Json::Object(fs)
                },
                None => {
                    proof {
                        lemma_upsert_new(fviews(fs@), key@, gv);
                    }
                    let k = owned(key);
                    let ghost before = fs@;
                    let ghost pair = (k, val);
                    fs.push((k, val));
                    proof {
                        lemma_fviews_push(before, pair);
                    }
                    Json::Object(fs)
                },
            }
        },
        other => other,
    }
}

/// The `id` of a profile.
pub open spec fn profile_id(p: JsonView) -> Option<Seq<char>> {
    str_member(p, "id"@)
}

/// The first profile from `i` on whose `id` is `id`.
pub open spec fn profile_index(ps: Seq<JsonView>, id: Seq<char>, i: int) -> Option<int>
    decreases ps.len() - i,
{
    if i < 0 || i >= ps.len() {
        None
    } else if profile_id(ps[i]) == Some(id) {
        Some(i)
    } else {
        profile_index(ps, id, i + 1)
    }
}

/// `llmProfiles` is missing or an array (anything else cannot hold
/// profiles, and storing one there is not defined).
pub open spec fn profiles_well_typed(cfg: JsonView) -> bool {
    match member(fields_of(cfg), "llmProfiles"@) {
        None => true,
        Some(JsonView::Array(_)) => true,
        _ => false,
    }
}

/// Whether `llmProfiles` is missing or an array.
pub fn profiles_array_ok(cfg: &Json) -> (r: bool)
    ensures
        r == profiles_well_typed(jview(*cfg)),
{
    match member_of(cfg, "llmProfiles") {
        None => true,
        Some(Json::Array(_)) => true,
        _ => false,
    }
}

/// The profiles with the one named `id` replaced by `profile`, or `profile`
/// added at the end when none is.
pub open spec fn with_profile(ps: Seq<JsonView>, id: Seq<char>, profile: JsonView) -> Seq<JsonView> {
    match profile_index(ps, id, 0) {
        Some(k) => ps.update(k, profile),
        None => ps.push(profile),
    }
}

/// The settings with `profile` stored under `id` in `llmProfiles` (which
/// is created when missing); none when the settings are not an object.
pub open spec fn put_profile(cfg: JsonView, id: Seq<char>, profile: JsonView) -> Option<JsonView> {
    match member(fields_of(cfg), "llmProfiles"@) {
        Some(JsonView::Array(ps)) => Some(
            obj_insert(cfg, "llmProfiles"@, JsonView::Array(with_profile(ps, id, profile))),
        ),
        _ => if cfg is Object {
            Some(obj_insert(cfg, "llmProfiles"@, JsonView::Array(seq![profile])))
        } else {
            None
        },
    }
}

fn profile_index_exec(ps: &Vec<Json>, id: &str) -> (r: Option<usize>)
    ensures
        match r {
            Some(k) => profile_index(jviews(ps@), id@, 0) == Some(k as int) && k < ps.len(),
            None => profile_index(jviews(ps@), id@, 0).is_none(),
        },
{
    let ghost vs = jviews(ps@);
    proof {
        lemma_jviews(ps@);
    }
    let idv = chars_of(id);
    let mut i: usize = 0;
    while i < ps.len()
        invariant
            i <= ps.len(),
            vs == jviews(ps@),
            vs.len() == ps.len(),
            forall|k: int| 0 <= k < ps.len() ==> #[trigger] vs[k] == jview(ps@[k]),
            idv@ == id@,
            profile_index(vs, id@, 0) == profile_index(vs, id@, i as int),
        decreases ps.len() - i,
    {
        match member_of(&ps[i], "id") {
            Some(Json::Str(s)) => {
                if seq_eq(&chars_of(s.as_str()), &idv) {
                    return Some(i);
                }
            },
            _ => {},
        }
        i = i + 1;
    }
    None
}

/// Stores `profile` under `id` in the settings' `llmProfiles`.
fn put_profile_exec(cfg: Json, id: &str, profile: Json) -> (r: Option<Json>)
    requires
        profiles_well_typed(jview(cfg)),
    ensures
        match r {
            Some(c) => put_profile(jview(cfg), id@, jview(profile)) == Some(jview(c)),
            None => put_profile(jview(cfg), id@, jview(profile)).is_none(),
        },
{
    let ghost gp = jview(profile);
    let ghost gc = jview(cfg);
    let existing: Option<Vec<Json>> = match member_of(&cfg, "llmProfiles") {
        Some(Json::Array(ps)) => {
            let mut copy: Vec<Json> = Vec::new();
            let mut i: usize = 0;
            while i < ps.len()
                invariant
                    i <= ps.len(),
                    jviews(copy@) == jviews(ps@.take(i as int)),
                decreases ps.len() - i,
            {
                let c = copy_json(&ps[i]);
                let ghost before = copy@;
                copy.push(c);
                proof {
                    assert(copy@.drop_last() =~= before);
                    assert(ps@.take(i + 1).drop_last() =~= ps@.take(i as int));
                }
                i = i + 1;
            }
            assert(ps@.take(i as int) =~= ps@);
            Some(copy)
        },
        _ => None,
    };
    match existing {
        Some(ps) => {
            let mut ps = ps;
            proof {
                lemma_jviews(ps@);
            }
            let ghost before = ps@;
            match profile_index_exec(&ps, id) {
                Some(k) => {
                    ps.set(k, profile);
                    proof {
                        lemma_jviews(ps@);
                        assert(jviews(ps@) =~= jviews(before).update(k as int, gp));
                    }
                },
                None => {
                    ps.push(profile);
                    proof {
                        assert(ps@.drop_last() =~= before);
                    }
                },
            }
            Some(obj_insert_exec(cfg, "llmProfiles", Json::Array(ps)))
        },
        None => {
            match cfg {
                Json::Object(_) => {
                    let mut one: Vec<Json> = Vec::new();
                    one.push(profile);
                    proof {
                        lemma_jviews(one@);
                        assert(jviews(one@) =~= seq![gp]);
                    }
                    Some(obj_insert_exec(cfg, "llmProfiles", Json::Array(one)))
                },
                _ => None,
            }
        },
    }
}

/// The model settings a profile carries over to `llm`.
pub open spec fn llm_keys() -> Seq<Seq<char>> {
    seq!["provider"@, "baseUrl"@, "model"@, "wireApi"@]
}

/// `lf` with the first `n` of `llm_keys` that `p` has set to `p`'s values.
pub open spec fn copy_keys(lf: Fields, p: JsonView, n: int) -> Fields
    decreases n,
{
    if n <= 0 {
        lf
    } else {
        let acc = copy_keys(lf, p, n - 1);
        match member(fields_of(p), llm_keys()[n - 1]) {
            Some(v) => upsert(acc, llm_keys()[n - 1], v),
            None => acc,
        }
    }
}

/// The settings with profile `p`'s provider, base URL, model and wire API
/// copied into `llm`, when `llm` is an object.
pub open spec fn copy_profile_fields(cfg: JsonView, p: JsonView) -> JsonView {
    match member(fields_of(cfg), "llm"@) {
        Some(JsonView::Object(lf)) => obj_insert(cfg, "llm"@, JsonView::Object(copy_keys(lf, p, 4))),
        _ => cfg,
    }
}


fn copy_key_exec(llm: Json, p: &Json, key: &str) -> (r: Json)
    ensures
        jview(r) == match member(fields_of(jview(*p)), key@) {
            Some(v) => obj_insert(jview(llm), key@, v),
            None => jview(llm),
        },
{
    match member_of(p, key) {
        Some(v) => obj_insert_exec(llm, key, copy_json(v)),
        None => llm,
    }
}

fn copy_all_keys(l0: Json, p: &Json) -> (r: Json)
    requires
        l0 is Object,
    ensures
        jview(r) == JsonView::Object(copy_keys(fields_of(jview(l0)), jview(*p), 4)),
{
    let ghost lf = fields_of(jview(l0));
    let ghost pv = jview(*p);
    assert(jview(l0) == JsonView::Object(lf));
    assert(copy_keys(lf, pv, 0) == lf);
    assert(llm_keys()[0] == "provider"@ && llm_keys()[1] == "baseUrl"@);
    assert(llm_keys()[2] == "model"@ && llm_keys()[3] == "wireApi"@);
    let l1 = copy_key_exec(l0, p, "provider");
    assert(jview(l1) == JsonView::Object(copy_keys(lf, pv, 1)));
    let l2 = copy_key_exec(l1, p, "baseUrl");
    assert(jview(l2) == JsonView::Object(copy_keys(lf, pv, 2)));
    let l3 = copy_key_exec(l2, p, "model");
    assert(jview(l3) == JsonView::Object(copy_keys(lf, pv, 3)));
    copy_key_exec(l3, p, "wireApi")
}

/// Copies profile `p`'s provider, base URL, model and wire API into the
/// settings' `llm` object.
fn copy_profile_fields_exec(cfg: Json, p: &Json) -> (r: Json)
    ensures
        jview(r) == copy_profile_fields(jview(cfg), jview(*p)),
{
    let llm: Option<Json> = match member_of(&cfg, "llm") {
        Some(l) => match l {
            Json::Object(_) => Some(copy_json(l)),
            _ => None,
        },
        None => None,
    };
    match llm {
        Some(l0) => {
            let l4 = copy_all_keys(l0, p);
            obj_insert_exec(cfg, "llm", l4)
        },
        None => cfg,
    }
}

/// The text of `activeLlmProfileId`, empty when it is not a string.
pub open spec fn active_id_spec(cfg: JsonView) -> Seq<char> {
    match str_member(cfg, "activeLlmProfileId"@) {
        Some(a) => a,
        None => Seq::empty(),
    }
}

/// The id of the active profile (empty when none is set).
pub fn active_profile_id(cfg: &Json) -> (r: String)
    ensures
        r@ == active_id_spec(jview(*cfg)),
{
    match member_of(cfg, "activeLlmProfileId") {
        Some(Json::Str(s)) => owned(s.as_str()),
        _ => String::new(),
    }
}

/// The error for settings whose top level is not an object.
pub open spec fn not_object_error() -> Seq<char> {
    "配置文件顶层不是 JSON 对象"@
}

/// The current `llm` settings as profile `id` named `name`.
pub open spec fn current_as_profile(cfg: JsonView, id: Seq<char>, name: Seq<char>) -> JsonView {
    let llm = match member(fields_of(cfg), "llm"@) {
        Some(v) => v,
        None => JsonView::Null,
    };
    obj_insert(obj_insert(llm, "id"@, JsonView::Str(id)), "name"@, JsonView::Str(name))
}

/// Saving the current settings as profile `id` and making it active.
pub open spec fn save_profile_spec(cfg: JsonView, id: Seq<char>, name: Seq<char>) -> Option<JsonView> {
    match put_profile(cfg, id, current_as_profile(cfg, id, name)) {
        Some(c) => Some(obj_insert(c, "activeLlmProfileId"@, JsonView::Str(id))),
        None => None,
    }
}

/// Saves the current `llm` settings as profile `id` named `name` (replacing
/// a profile with that id, else added at the end) and makes it the active
/// one. Fails when the settings are not an object. The caller copies the
/// `llm.apiKey` key-store entry to the profile's entry.
pub fn save_current_as_profile(cfg: Json, id: &str, name: &str) -> (r: Result<Json, String>)
    requires
        profiles_well_typed(jview(cfg)),
    ensures
        match r {
            Ok(c) => save_profile_spec(jview(cfg), id@, name@) == Some(jview(c)),
            Err(e) => save_profile_spec(jview(cfg), id@, name@).is_none() && e@ == not_object_error(),
        },
{
    let llm: Json = match member_of(&cfg, "llm") {
        Some(l) => copy_json(l),
        None => Json::Null,
    };
    let with_id = obj_insert_exec(llm, "id", Json::Str(owned(id)));
    let profile = obj_insert_exec(with_id, "name", Json::Str(owned(name)));
    match put_profile_exec(cfg, id, profile) {
        Some(c) => Ok(obj_insert_exec(c, "activeLlmProfileId", Json::Str(owned(id)))),
        None => Err(owned("配置文件顶层不是 JSON 对象")),
    }
}

/// Profile `id` in the settings, if there is one.
pub open spec fn find_profile(cfg: JsonView, id: Seq<char>) -> Option<JsonView> {
    match member(fields_of(cfg), "llmProfiles"@) {
        Some(JsonView::Array(ps)) => match profile_index(ps, id, 0) {
            Some(k) => Some(ps[k]),
            None => None,
        },
        _ => None,
    }
}

fn find_profile_exec(cfg: &Json, id: &str) -> (r: Option<Json>)
    ensures
        match r {
            Some(p) => find_profile(jview(*cfg), id@) == Some(jview(p)),
            None => find_profile(jview(*cfg), id@).is_none(),
        },
{
    match member_of(cfg, "llmProfiles") {
        Some(Json::Array(ps)) => match profile_index_exec(ps, id) {
            Some(k) => {
                proof {
                    lemma_jviews(ps@);
                }
                Some(copy_json(&ps[k]))
            },
            None => None,
        },
        _ => None,
    }
}

/// Switching to profile `id`: its settings copied into `llm`, and it made
/// the active one.
pub open spec fn switch_profile_spec(cfg: JsonView, id: Seq<char>) -> Option<JsonView> {
    match find_profile(cfg, id) {
        Some(t) => Some(obj_insert(copy_profile_fields(cfg, t), "activeLlmProfileId"@, JsonView::Str(id))),
        None => None,
    }
}

/// Makes profile `id` the active one, copying its provider, base URL, model
/// and wire API into `llm`; `Profile not found` when there is no such
/// profile. The caller saves `llm.apiKey` to the previously active
/// profile's entry first, then copies the new profile's key (or clears it).
pub fn switch_profile(cfg: Json, id: &str) -> (r: Result<Json, String>)
    ensures
        match r {
            Ok(c) => switch_profile_spec(jview(cfg), id@) == Some(jview(c)),
            Err(e) => switch_profile_spec(jview(cfg), id@).is_none() && e@ == "Profile not found"@,
        },
{
    match find_profile_exec(&cfg, id) {
        Some(t) => {
            let c = copy_profile_fields_exec(cfg, &t);
            Ok(obj_insert_exec(c, "activeLlmProfileId", Json::Str(owned(id))))
        },
        None => Err(owned("Profile not found")),
    }
}


/// The profiles whose `id` is not `id`, in order.
pub open spec fn other_profiles(ps: Seq<JsonView>, id: Seq<char>) -> Seq<JsonView>
    decreases ps.len(),
{
    if ps.len() == 0 {
        ps
    } else {
        let rest = other_profiles(ps.drop_last(), id);
        if profile_id(ps.last()) == Some(id) {
            rest
        } else {
            rest.push(ps.last())
        }
    }
}

/// The settings with profile `id` taken out of `llmProfiles`.
pub open spec fn without_profile(cfg: JsonView, id: Seq<char>) -> JsonView {
    match member(fields_of(cfg), "llmProfiles"@) {
        Some(JsonView::Array(ps)) => obj_insert(cfg, "llmProfiles"@, JsonView::Array(other_profiles(ps, id))),
        _ => cfg,
    }
}

/// The first saved profile.
pub open spec fn first_profile(cfg: JsonView) -> Option<JsonView> {
    match member(fields_of(cfg), "llmProfiles"@) {
        Some(JsonView::Array(ps)) => if ps.len() > 0 {
            Some(ps[0])
        } else {
            None
        },
        _ => None,
    }
}

/// `llm` back to the default provider, base URL, model and wire API, with
/// an empty API key.
pub open spec fn reset_llm(cfg: JsonView, default_llm: JsonView) -> JsonView {
    match member(fields_of(cfg), "llm"@) {
        Some(JsonView::Object(lf)) => obj_insert(
            cfg,
            "llm"@,
            JsonView::Object(upsert(copy_keys(lf, default_llm, 4), "apiKey"@, JsonView::Str(Seq::empty()))),
        ),
        _ => cfg,
    }
}

/// What deleting a profile did to the active one.
#[derive(Debug)]
pub enum ActiveChange {
    /// The deleted profile was not the active one.
    Unchanged,
    /// The first remaining profile became active; its key goes to `llm.apiKey`.
    Switched(String),
    /// No profile is left; `llm.apiKey` is cleared.
    Cleared,
}

/// An `ActiveChange` as plain values.
pub open spec fn change_view(c: ActiveChange) -> Option<Option<Seq<char>>> {
    match c {
        ActiveChange::Unchanged => None,
        ActiveChange::Switched(s) => Some(Some(s@)),
        ActiveChange::Cleared => Some(None),
    }
}

/// Deleting profile `id`, with `default_llm` the default `llm` settings.
pub open spec fn delete_spec(cfg: JsonView, id: Seq<char>, default_llm: JsonView) -> Option<(JsonView, Option<Option<Seq<char>>>)> {
    let c1 = without_profile(cfg, id);
    if active_id_spec(c1) != id {
        Some((c1, None))
    } else {
        match first_profile(c1) {
            Some(n) => {
                let nid = match profile_id(n) {
                    Some(x) => x,
                    None => Seq::empty(),
                };
                Some((obj_insert(copy_profile_fields(c1, n), "activeLlmProfileId"@, JsonView::Str(nid)), Some(Some(nid))))
            },
            None => if c1 is Object {
                Some((reset_llm(obj_insert(c1, "activeLlmProfileId"@, JsonView::Str(Seq::empty())), default_llm), Some(None)))
            } else {
                None
            },
        }
    }
}

fn without_profile_exec(cfg: Json, id: &str) -> (r: Json)
    ensures
        jview(r) == without_profile(jview(cfg), id@),
{
    let kept: Option<Vec<Json>> = match member_of(&cfg, "llmProfiles") {
        Some(Json::Array(ps)) => {
            let idv = chars_of(id);
            let mut out: Vec<Json> = Vec::new();
            let mut i: usize = 0;
            while i < ps.len()
                invariant
                    i <= ps.len(),
                    idv@ == id@,
                    jviews(out@) == other_profiles(jviews(ps@.take(i as int)), id@),
                decreases ps.len() - i,
            {
                let ghost before = out@;
                let ghost taken = ps@.take(i as int);
                proof {
                    lemma_jviews(ps@.take(i + 1));
                    assert(ps@.take(i + 1).drop_last() =~= taken);
                    assert(jviews(ps@.take(i + 1)).drop_last() =~= jviews(taken));
                }
                let same: bool = match member_of(&ps[i], "id") {
                    Some(Json::Str(s)) => seq_eq(&chars_of(s.as_str()), &idv),
                    _ => false,
                };
                if !same {
                    let c = copy_json(&ps[i]);
                    out.push(c);
                    proof {
                        assert(out@.drop_last() =~= before);
                    }
                }
                i = i + 1;
            }
            assert(ps@.take(i as int) =~= ps@);
            Some(out)
        },
        _ => None,
    };
    match kept {
        Some(out) => obj_insert_exec(cfg, "llmProfiles", Json::Array(out)),
        None => cfg,
    }
}

fn first_profile_exec(cfg: &Json) -> (r: Option<Json>)
    ensures
        match r {
            Some(p) => first_profile(jview(*cfg)) == Some(jview(p)),
            None => first_profile(jview(*cfg)).is_none(),
        },
{
    match member_of(cfg, "llmProfiles") {
        Some(Json::Array(ps)) => {
            if ps.len() > 0 {
                proof {
                    lemma_jviews(ps@);
                }
                Some(copy_json(&ps[0]))
            } else {
                None
            }
        },
        _ => None,
    }
}

fn reset_llm_exec(cfg: Json, default_llm: &Json) -> (r: Json)
    ensures
        jview(r) == reset_llm(jview(cfg), jview(*default_llm)),
{
    let llm: Option<Json> = match member_of(&cfg, "llm") {
        Some(l) => match l {
            Json::Object(_) => Some(copy_json(l)),
            _ => None,
        },
        None => None,
    };
    match llm {
        Some(l0) => {
            let l4 = copy_all_keys(l0, default_llm);
            let l5 = obj_insert_exec(l4, "apiKey", Json::Str(String::new()));
            obj_insert_exec(cfg, "llm", l5)
        },
        None => cfg,
    }
}

/// Deletes profile `id`. When it was the active one, the first remaining
/// profile becomes active (its settings copied into `llm`), or, with none
/// left, the active id is cleared and `llm` goes back to `default_llm`'s
/// provider, base URL, model and wire API with an empty API key; the
/// result says which, so that the caller can move the key-store entries.
/// Fails only when the active profile is to be cleared and the settings
/// are not an object.
pub fn delete_profile(cfg: Json, id: &str, default_llm: &Json) -> (r: Result<(Json, ActiveChange), String>)
    ensures
        match r {
            Ok((c, ch)) => delete_spec(jview(cfg), id@, jview(*default_llm)) == Some((jview(c), change_view(ch))),
            Err(e) => delete_spec(jview(cfg), id@, jview(*default_llm)).is_none() && e@ == not_object_error(),
        },
{
    let c1 = without_profile_exec(cfg, id);
    let active = active_profile_id(&c1);
    if !seq_eq(&chars_of(active.as_str()), &chars_of(id)) {
        return Ok((c1, ActiveChange::Unchanged));
    }
    match first_profile_exec(&c1) {
        Some(n) => {
            let nid: String = match member_of(&n, "id") {
                Some(Json::Str(s)) => owned(s.as_str()),
                _ => String::new(),
            };
            let c2 = copy_profile_fields_exec(c1, &n);
            let c3 = obj_insert_exec(c2, "activeLlmProfileId", Json::Str(owned(nid.as_str())));
            Ok((c3, ActiveChange::Switched(nid)))
        },
        None => {
            match c1 {
                Json::Object(_) => {
                    let c2 = obj_insert_exec(c1, "activeLlmProfileId", Json::Str(String::new()));
                    Ok((reset_llm_exec(c2, default_llm), ActiveChange::Cleared))
                },
                _ => Err(owned("配置文件顶层不是 JSON 对象")),
            }
        },
    }
}

/// The profile a form describes.
pub open spec fn form_profile(id: Seq<char>, name: Seq<char>, provider: Seq<char>, base_url: Seq<char>, model: Seq<char>, wire_api: Option<Seq<char>>) -> JsonView {
    let base = seq![
        ("id"@, JsonView::Str(id)),
        ("name"@, JsonView::Str(name)),
        ("provider"@, JsonView::Str(provider)),
        ("baseUrl"@, JsonView::Str(base_url)),
        ("model"@, JsonView::Str(model)),
    ];
    JsonView::Object(
        match wire_api {
            Some(w) => base.push(("wireApi"@, JsonView::Str(w))),
            None => base,
        },
    )
}

/// Adding or editing profile `id` from `profile`: stored, and when no
/// profile is active or it is this one, made active with its settings
/// copied into `llm`; the flag says whether it was.
pub open spec fn upsert_spec(cfg: JsonView, id: Seq<char>, profile: JsonView) -> Option<(JsonView, bool)> {
    let current = active_id_spec(cfg);
    let activate = current.len() == 0 || current == id;
    match put_profile(cfg, id, profile) {
        None => None,
        Some(c) => if activate {
            Some((copy_profile_fields(obj_insert(c, "activeLlmProfileId"@, JsonView::Str(id)), profile), true))
        } else {
            Some((c, false))
        },
    }
}

fn str_pair(k: &str, v: &str) -> (r: (String, Json))
    ensures
        r.0@ == k@,
        jview(r.1) == JsonView::Str(v@),
{
    (owned(k), Json::Str(owned(v)))
}

/// Adds or edits profile `id` from the form's fields. When no profile is
/// active, or this one is, it becomes the active one and its settings are
/// copied into `llm`; the flag in the result says so (the caller then
/// moves the API key into `llm.apiKey`). Fails when the settings are not an
/// object.
pub fn upsert_profile(cfg: Json, id: &str, name: &str, provider: &str, base_url: &str, model: &str, wire_api: Option<&str>) -> (r: Result<(Json, bool), String>)
    requires
        profiles_well_typed(jview(cfg)),
    ensures
        match r {
            Ok((c, act)) => upsert_spec(
                jview(cfg),
                id@,
                form_profile(id@, name@, provider@, base_url@, model@, match wire_api {
                    Some(w) => Some(w@),
                    None => None,
                }),
            ) == Some((jview(c), act)),
            Err(e) => upsert_spec(
                jview(cfg),
                id@,
                form_profile(id@, name@, provider@, base_url@, model@, match wire_api {
                    Some(w) => Some(w@),
                    None => None,
                }),
            ).is_none() && e@ == not_object_error(),
        },
{
    let ghost wv: Option<Seq<char>> = match wire_api {
        Some(w) => Some(w@),
        None => None,
    };
    let current = active_profile_id(&cfg);
    let activate = current.as_str().is_empty() || seq_eq(&chars_of(current.as_str()), &chars_of(id));
    let mut fs: Vec<(String, Json)> = Vec::new();
    fs.push(str_pair("id", id));
    fs.push(str_pair("name", name));
    fs.push(str_pair("provider", provider));
    fs.push(str_pair("baseUrl", base_url));
    fs.push(str_pair("model", model));
    match wire_api {
        Some(w) => {
            fs.push(str_pair("wireApi", w));
        },
        None => {},
    }
    proof {
        lemma_fviews(fs@);
        assert(fviews(fs@) =~= fields_of(form_profile(id@, name@, provider@, base_url@, model@, wv)));
    }
    let profile = Json::Object(fs);
    let copy = copy_json(&profile);
    match put_profile_exec(cfg, id, profile) {
        Some(c) => {
            if activate {
                let c2 = obj_insert_exec(c, "activeLlmProfileId", Json::Str(owned(id)));
                Ok((copy_profile_fields_exec(c2, &copy), true))
            } else {
                Ok((c, false))
            }
        },
        None => Err(owned("配置文件顶层不是 JSON 对象")),
    }
}


proof fn lemma_profile_index(ps: Seq<JsonView>, id: Seq<char>, i: int)
    requires
        0 <= i,
    ensures
        match profile_index(ps, id, i) {
            Some(k) => i <= k < ps.len() && profile_id(ps[k]) == Some(id) && forall|j: int|
                i <= j < k ==> profile_id(#[trigger] ps[j]) != Some(id),
            None => forall|j: int| i <= j < ps.len() ==> profile_id(#[trigger] ps[j]) != Some(id),
        },
    decreases ps.len() - i,
{
    if i < ps.len() && profile_id(ps[i]) != Some(id) {
        lemma_profile_index(ps, id, i + 1);
    }
}

proof fn lemma_index_of_found(ps: Seq<JsonView>, id: Seq<char>, k: int)
    requires
        0 <= k < ps.len(),
        profile_id(ps[k]) == Some(id),
        forall|j: int| 0 <= j < k ==> profile_id(#[trigger] ps[j]) != Some(id),
    ensures
        profile_index(ps, id, 0) == Some(k),
{
    lemma_profile_index(ps, id, 0);
    match profile_index(ps, id, 0) {
        Some(m) => {
            if m < k {
                assert(profile_id(ps[m]) != Some(id));
            }
            if m > k {
                assert(profile_id(ps[k]) != Some(id));
            }
        },
        None => {
            assert(profile_id(ps[k]) != Some(id));
        },
    }
}

proof fn lemma_with_profile_finds(ps: Seq<JsonView>, id: Seq<char>, p: JsonView)
    requires
        profile_id(p) == Some(id),
    ensures
        match profile_index(with_profile(ps, id, p), id, 0) {
            Some(k) => with_profile(ps, id, p)[k] == p,
            None => false,
        },
{
    lemma_profile_index(ps, id, 0);
    let w = with_profile(ps, id, p);
    match profile_index(ps, id, 0) {
        Some(k) => {
            assert forall|j: int| 0 <= j < k implies profile_id(#[trigger] w[j]) != Some(id) by {
                assert(w[j] == ps[j]);
            }
            lemma_index_of_found(w, id, k);
        },
        None => {
            let n = ps.len() as int;
            assert forall|j: int| 0 <= j < n implies profile_id(#[trigger] w[j]) != Some(id) by {
                assert(w[j] == ps[j]);
            }
            lemma_index_of_found(w, id, n);
        },
    }
}

/// Storing a profile under `id` makes `id` findable, and it is the stored
/// profile that is found.
pub proof fn lemma_put_profile_finds(cfg: JsonView, id: Seq<char>, p: JsonView)
    requires
        profile_id(p) == Some(id),
        put_profile(cfg, id, p).is_some(),
    ensures
        find_profile(put_profile(cfg, id, p).unwrap(), id) == Some(p),
{
    let fs = fields_of(cfg);
    let key = "llmProfiles"@;
    match member(fs, key) {
        Some(JsonView::Array(ps)) => {
            lemma_with_profile_finds(ps, id, p);
            lemma_member_upsert(fs, key, JsonView::Array(with_profile(ps, id, p)), key);
        },
        _ => {
            let one = seq![p];
            lemma_member_upsert(fs, key, JsonView::Array(one), key);
            lemma_index_of_found(one, id, 0);
        },
    }
}

proof fn lemma_other_profiles(ps: Seq<JsonView>, id: Seq<char>)
    ensures
        forall|j: int| 0 <= j < other_profiles(ps, id).len() ==> profile_id(#[trigger] other_profiles(ps, id)[j]) != Some(id),
    decreases ps.len(),
{
    if ps.len() > 0 {
        lemma_other_profiles(ps.drop_last(), id);
    }
}

/// A profile form always names the profile it describes.
pub proof fn lemma_form_profile_id(id: Seq<char>, name: Seq<char>, provider: Seq<char>, base_url: Seq<char>, model: Seq<char>, wire_api: Option<Seq<char>>)
    ensures
        profile_id(form_profile(id, name, provider, base_url, model, wire_api)) == Some(id),
{
    let fs = fields_of(form_profile(id, name, provider, base_url, model, wire_api));
    assert(fs[0] == ("id"@, JsonView::Str(id)));
}

/// The profile laws: saving the current settings (when `llm` is an object)
/// or a form as profile `id` stores it under `id` and, for a save or an
/// activating form, makes `id` the active profile; switching to `id` makes
/// it the active one; after deleting `id` no profile has that id.
pub proof fn lemma_profile_laws(cfg: JsonView, id: Seq<char>, name: Seq<char>, form: JsonView, default_llm: JsonView)
    requires
        profile_id(form) == Some(id),
    ensures
        (member(fields_of(cfg), "llm"@) matches Some(JsonView::Object(_))) ==> (save_profile_spec(cfg, id, name)
            matches Some(c) ==> find_profile(c, id).is_some() && active_id_spec(c) == id),
        upsert_spec(cfg, id, form) matches Some((c, act)) ==> find_profile(c, id) == Some(form) && (act
            ==> active_id_spec(c) == id),
        switch_profile_spec(cfg, id) matches Some(c) ==> active_id_spec(c) == id,
        delete_spec(cfg, id, default_llm) matches Some((c, _)) ==> find_profile(c, id).is_none(),
{
    reveal_strlit("activeLlmProfileId");
    reveal_strlit("llmProfiles");
    reveal_strlit("llm");
    reveal_strlit("id");
    reveal_strlit("name");
    let act_key = "activeLlmProfileId"@;
    let prof_key = "llmProfiles"@;
    let llm_key = "llm"@;
    assert(act_key != prof_key) by {
        assert(act_key[0] != prof_key[0]);
    }
    assert(act_key != llm_key) by {
        assert(act_key[0] != llm_key[0]);
    }
    assert(prof_key != llm_key) by {
        assert(prof_key.len() != llm_key.len());
    }
    // Saving the current settings.
    if save_profile_spec(cfg, id, name) is Some && member(fields_of(cfg), llm_key) matches Some(JsonView::Object(_)) {
        let p = current_as_profile(cfg, id, name);
        let lf = fields_of(member(fields_of(cfg), llm_key).unwrap());
        let with_id = upsert(lf, "id"@, JsonView::Str(id));
        lemma_member_upsert(lf, "id"@, JsonView::Str(id), "name"@);
        lemma_member_upsert(with_id, "name"@, JsonView::Str(name), "id"@);
        lemma_member_upsert(lf, "id"@, JsonView::Str(id), "id"@);
        assert("id"@ != "name"@) by {
            assert("id"@.len() != "name"@.len());
        }
        assert(profile_id(p) == Some(id));
        lemma_put_profile_finds(cfg, id, p);
        let c = put_profile(cfg, id, p).unwrap();
        lemma_member_upsert(fields_of(c), act_key, JsonView::Str(id), prof_key);
        lemma_member_upsert(fields_of(c), act_key, JsonView::Str(id), act_key);
    }
    // A form.
    if let Some((c, act)) = upsert_spec(cfg, id, form) {
        lemma_put_profile_finds(cfg, id, form);
        let c0 = put_profile(cfg, id, form).unwrap();
        if act {
            let c1 = obj_insert(c0, act_key, JsonView::Str(id));
            lemma_member_upsert(fields_of(c0), act_key, JsonView::Str(id), prof_key);
            lemma_member_upsert(fields_of(c0), act_key, JsonView::Str(id), act_key);
            lemma_member_upsert(fields_of(c0), act_key, JsonView::Str(id), llm_key);
            match member(fields_of(c1), llm_key) {
                Some(JsonView::Object(lf)) => {
                    let nl = JsonView::Object(copy_keys(lf, form, 4));
                    lemma_member_upsert(fields_of(c1), llm_key, nl, prof_key);
                    lemma_member_upsert(fields_of(c1), llm_key, nl, act_key);
                },
                _ => {},
            }
        }
    }
    // Switching.
    if let Some(c) = switch_profile_spec(cfg, id) {
        let t = find_profile(cfg, id).unwrap();
        let c1 = copy_profile_fields(cfg, t);
        lemma_member_upsert(fields_of(c1), act_key, JsonView::Str(id), act_key);
    }
    // Deleting.
    if let Some((c, _)) = delete_spec(cfg, id, default_llm) {
        let c1 = without_profile(cfg, id);
        match member(fields_of(cfg), prof_key) {
            Some(JsonView::Array(ps)) => {
                lemma_other_profiles(ps, id);
                lemma_member_upsert(fields_of(cfg), prof_key, JsonView::Array(other_profiles(ps, id)), prof_key);
                lemma_profile_index(other_profiles(ps, id), id, 0);
            },
            _ => {},
        }
        assert(find_profile(c1, id).is_none());
        if active_id_spec(c1) == id {
            match first_profile(c1) {
                Some(n) => {
                    let nid = match profile_id(n) {
                        Some(x) => x,
                        None => Seq::empty(),
                    };
                    let c2 = copy_profile_fields(c1, n);
                    match member(fields_of(c1), llm_key) {
                        Some(JsonView::Object(lf)) => {
                            lemma_member_upsert(fields_of(c1), llm_key, JsonView::Object(copy_keys(lf, n, 4)), prof_key);
                        },
                        _ => {},
                    }
                    lemma_member_upsert(fields_of(c2), act_key, JsonView::Str(nid), prof_key);
                },
                None => {
                    let c2 = obj_insert(c1, act_key, JsonView::Str(Seq::empty()));
                    lemma_member_upsert(fields_of(c1), act_key, JsonView::Str(Seq::empty()), prof_key);
                    lemma_member_upsert(fields_of(c1), act_key, JsonView::Str(Seq::empty()), llm_key);
                    match member(fields_of(c2), llm_key) {
                        Some(JsonView::Object(lf)) => {
                            let nl = JsonView::Object(upsert(copy_keys(lf, default_llm, 4), "apiKey"@, JsonView::Str(Seq::empty())));
                            lemma_member_upsert(fields_of(c2), llm_key, nl, prof_key);
                        },
                        _ => {},
                    }
                },
            }
        }
    }
}

} // verus!
