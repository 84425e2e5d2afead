//! Completing a settings tree from the defaults: every member that the
//! defaults have and the user's tree lacks is added, at every depth where
//! both sides are objects; what the user wrote is never replaced.

use vstd::prelude::*;
use crate::config_json::{
    Json, JsonView, Fields, jview, jviews, fviews, member, upsert, key_index, lemma_fviews,
    lemma_fviews_push, lemma_fviews_update, lemma_upsert_at, lemma_upsert_new, lemma_member_upsert, fields_of, get_path,
};
use crate::text::owned;

verus! {

/// `u` completed from `d`.
pub open spec fn merged(u: JsonView, d: JsonView) -> JsonView
    decreases d, 0int,
{
    match d {
        JsonView::Object(df) => match u {
            JsonView::Object(uf) => JsonView::Object(merged_fields(uf, df, df.len() as int)),
            _ => u,
        },
        _ => u,
    }
}

/// The members `acc` after the first `n` members of `df` were merged in,
/// one after the other.
pub open spec fn merged_fields(acc: Fields, df: Fields, n: int) -> Fields
    decreases df, n,
{
    if n <= 0 || n > df.len() {
        acc
    } else {
        let prev = merged_fields(acc, df, n - 1);
        let k = df[n - 1].0;
        let v = df[n - 1].1;
        proof {
            assert(decreases_to!(df => df[n - 1]));
        }
        match member(prev, k) {
            None => prev.push((k, v)),
            Some(c) => if v is Object {
                upsert(prev, k, merged(c, v))
            } else {
                prev
            },
        }
    }
}

proof fn lemma_member_none(fs: Fields, key: Seq<char>)
    requires
        member(fs, key).is_none(),
    ensures
        forall|i: int| 0 <= i < fs.len() ==> #[trigger] fs[i].0 != key,
    decreases fs.len(),
{
    if fs.len() > 0 {
        lemma_member_none(fs.drop_first(), key);
        assert forall|i: int| 0 <= i < fs.len() implies #[trigger] fs[i].0 != key by {
            if i > 0 {
                assert(fs[i] == fs.drop_first()[i - 1]);
            }
        }
    }
}

proof fn lemma_member_some(fs: Fields, key: Seq<char>) -> (i: int)
    requires
        member(fs, key).is_some(),
    ensures
        0 <= i < fs.len(),
        fs[i].0 == key,
    decreases fs.len(),
{
    if fs[0].0 == key {
        0
    } else {
        let j = lemma_member_some(fs.drop_first(), key);
        assert(fs[j + 1] == fs.drop_first()[j]);
        j + 1
    }
}

proof fn lemma_merged_fields_keeps(acc: Fields, df: Fields, n: int, key: Seq<char>)
    requires
        0 <= n <= df.len(),
    ensures
        member(acc, key).is_some() ==> member(merged_fields(acc, df, n), key).is_some(),
        forall|i: int| 0 <= i < n && #[trigger] df[i].0 == key ==> member(merged_fields(acc, df, n), key).is_some(),
        (member(acc, key) matches Some(x) && !(x is Object)) ==> member(merged_fields(acc, df, n), key) == member(acc, key),
    decreases n,
{
    if n > 0 {
        lemma_merged_fields_keeps(acc, df, n - 1, key);
        let prev = merged_fields(acc, df, n - 1);
        let k = df[n - 1].0;
        let v = df[n - 1].1;
        match member(prev, k) {
            None => {
                lemma_member_none(prev, k);
                lemma_upsert_new(prev, k, v);
                lemma_member_upsert(prev, k, v, key);
            },
            Some(c) => {
                if v is Object {
                    lemma_member_upsert(prev, k, merged(c, v), key);
                }
            },
        }
    }
}

/// Completing from the defaults keeps what the user wrote and fills the
/// gaps: every member the user's object had is still there, every member of
/// the defaults' object is there afterwards, and a member whose value the
/// user set to anything but an object comes out unchanged.
pub proof fn lemma_merge_keeps_user(u: JsonView, d: JsonView, key: Seq<char>)
    requires
        u is Object,
        d is Object,
    ensures
        member(fields_of(u), key).is_some() ==> member(fields_of(merged(u, d)), key).is_some(),
        member(fields_of(d), key).is_some() ==> member(fields_of(merged(u, d)), key).is_some(),
        (member(fields_of(u), key) matches Some(x) && !(x is Object)) ==> member(fields_of(merged(u, d)), key)
            == member(fields_of(u), key),
{
    let uf = fields_of(u);
    let df = fields_of(d);
    lemma_merged_fields_keeps(uf, df, df.len() as int, key);
    if member(df, key).is_some() {
        let i = lemma_member_some(df, key);
        assert(df[i].0 == key);
    }
}

/// Everything `a` holds is still in `b`: every path that leads somewhere in
/// `a` leads somewhere in `b`, to the same value when that value is not an
/// object.
pub open spec fn kept_in(a: JsonView, b: JsonView) -> bool {
    forall|p: Seq<Seq<char>>| (#[trigger] get_path(a, p)).is_some() ==> get_path(b, p).is_some() && (!(
    get_path(a, p).unwrap() is Object) ==> get_path(b, p) == get_path(a, p))
}

proof fn lemma_kept_in_trans(a: JsonView, b: JsonView, c: JsonView)
    requires
        kept_in(a, b),
        kept_in(b, c),
    ensures
        kept_in(a, c),
{
    assert forall|p: Seq<Seq<char>>| (#[trigger] get_path(a, p)).is_some() implies get_path(c, p).is_some() && (!(
    get_path(a, p).unwrap() is Object) ==> get_path(c, p) == get_path(a, p)) by {
        assert(get_path(b, p).is_some());
    }
}

proof fn lemma_merged_keeps_all(u: JsonView, d: JsonView)
    ensures
        kept_in(u, merged(u, d)),
    decreases d, 0int,
{
    match d {
        JsonView::Object(df) => match u {
            JsonView::Object(uf) => {
                let m = merged(u, d);
                let mf = merged_fields(uf, df, df.len() as int);
                assert forall|p: Seq<Seq<char>>| (#[trigger] get_path(u, p)).is_some() implies get_path(m, p).is_some() && (!(
                get_path(u, p).unwrap() is Object) ==> get_path(m, p) == get_path(u, p)) by {
                    if p.len() > 0 {
                        let c = member(uf, p[0]).unwrap();
                        let c2 = lemma_merged_fields_keeps_all(uf, df, df.len() as int, p[0]);
                        assert(get_path(u, p) == get_path(c, p.drop_first()));
                        assert(get_path(m, p) == get_path(c2, p.drop_first()));
                        assert(get_path(c, p.drop_first()).is_some());
                    }
                }
            },
            _ => {},
        },
        _ => {},
    }
}

proof fn lemma_merged_fields_keeps_all(acc: Fields, df: Fields, n: int, key: Seq<char>) -> (c2: JsonView)
    requires
        member(acc, key).is_some(),
    ensures
        member(merged_fields(acc, df, n), key) == Some(c2),
        kept_in(member(acc, key).unwrap(), c2),
    decreases df, n,
{
    let c = member(acc, key).unwrap();
    if n <= 0 || n > df.len() {
        c
    } else {
        let c1 = lemma_merged_fields_keeps_all(acc, df, n - 1, key);
        let prev = merged_fields(acc, df, n - 1);
        let k = df[n - 1].0;
        let v = df[n - 1].1;
        assert(decreases_to!(df => df[n - 1]));
        match member(prev, k) {
            None => {
                lemma_member_none(prev, k);
                lemma_upsert_new(prev, k, v);
                lemma_member_upsert(prev, k, v, key);
                c1
            },
            Some(cc) => if v is Object {
                lemma_member_upsert(prev, k, merged(cc, v), key);
                if k == key {
                    lemma_merged_keeps_all(cc, v);
                    lemma_kept_in_trans(c, c1, merged(cc, v));
                    merged(cc, v)
                } else {
                    c1
                }
            } else {
                c1
            },
        }
    }
}

proof fn lemma_member_first(fs: Fields, key: Seq<char>) -> (i: int)
    requires
        member(fs, key).is_some(),
    ensures
        0 <= i < fs.len(),
        fs[i] == (key, member(fs, key).unwrap()),
        forall|j: int| 0 <= j < i ==> #[trigger] fs[j].0 != key,
    decreases fs.len(),
{
    if fs[0].0 == key {
        0
    } else {
        let j = lemma_member_first(fs.drop_first(), key);
        assert(fs[j + 1] == fs.drop_first()[j]);
        assert forall|m: int| 0 <= m < j + 1 implies #[trigger] fs[m].0 != key by {
            if m > 0 {
                assert(fs[m] == fs.drop_first()[m - 1]);
            }
        }
        j + 1
    }
}

proof fn lemma_merged_fields_untouched(acc: Fields, df: Fields, n: int, key: Seq<char>)
    requires
        0 <= n <= df.len(),
        forall|j: int| 0 <= j < n ==> #[trigger] df[j].0 != key,
    ensures
        member(merged_fields(acc, df, n), key) == member(acc, key),
    decreases n,
{
    if n > 0 {
        lemma_merged_fields_untouched(acc, df, n - 1, key);
        let prev = merged_fields(acc, df, n - 1);
        let k = df[n - 1].0;
        let v = df[n - 1].1;
        assert(k != key);
        match member(prev, k) {
            None => {
                lemma_member_none(prev, k);
                lemma_upsert_new(prev, k, v);
                lemma_member_upsert(prev, k, v, key);
            },
            Some(cc) => if v is Object {
                lemma_member_upsert(prev, k, merged(cc, v), key);
            },
        }
    }
}

proof fn lemma_merged_fields_later(acc: Fields, df: Fields, m: int, n: int, key: Seq<char>) -> (c2: JsonView)
    requires
        0 <= m <= n <= df.len(),
        member(merged_fields(acc, df, m), key).is_some(),
    ensures
        member(merged_fields(acc, df, n), key) == Some(c2),
        kept_in(member(merged_fields(acc, df, m), key).unwrap(), c2),
    decreases n,
{
    let c = member(merged_fields(acc, df, m), key).unwrap();
    if n == m {
        c
    } else {
        let c1 = lemma_merged_fields_later(acc, df, m, n - 1, key);
        let prev = merged_fields(acc, df, n - 1);
        let k = df[n - 1].0;
        let v = df[n - 1].1;
        assert(decreases_to!(df => df[n - 1]));
        match member(prev, k) {
            None => {
                lemma_member_none(prev, k);
                lemma_upsert_new(prev, k, v);
                lemma_member_upsert(prev, k, v, key);
                c1
            },
            Some(cc) => if v is Object {
                lemma_member_upsert(prev, k, merged(cc, v), key);
                if k == key {
                    lemma_merged_keeps_all(cc, v);
                    lemma_kept_in_trans(c, c1, merged(cc, v));
                    merged(cc, v)
                } else {
                    c1
                }
            } else {
                c1
            },
        }
    }
}

proof fn lemma_merged_covers(u: JsonView, d: JsonView, p: Seq<Seq<char>>)
    requires
        get_path(d, p).is_some(),
        forall|j: int| 0 <= j < p.len() ==> (#[trigger] get_path(u, p.take(j)) matches Some(x) ==> x is Object),
    ensures
        get_path(merged(u, d), p).is_some(),
    decreases p.len(),
{
    if p.len() > 0 {
        assert(p.take(0) =~= Seq::<Seq<char>>::empty());
        assert(get_path(u, p.take(0)) == Some(u));
        let uf = fields_of(u);
        let df = fields_of(d);
        let k = p[0];
        let rest = p.drop_first();
        let v1 = member(df, k).unwrap();
        let i = lemma_member_first(df, k);
        lemma_merged_fields_untouched(uf, df, i, k);
        let prev = merged_fields(uf, df, i);
        assert(merged_fields(uf, df, i + 1) == match member(prev, k) {
            None => prev.push((k, v1)),
            Some(c) => if v1 is Object {
                upsert(prev, k, merged(c, v1))
            } else {
                prev
            },
        });
        assert(get_path(d, p) == get_path(v1, rest));
        match member(uf, k) {
            None => {
                lemma_member_none(prev, k);
                lemma_upsert_new(prev, k, v1);
                lemma_member_upsert(prev, k, v1, k);
                let w = lemma_merged_fields_later(uf, df, i + 1, df.len() as int, k);
                assert(get_path(v1, rest).is_some());
            },
            Some(c) => {
                if v1 is Object {
                    lemma_member_upsert(prev, k, merged(c, v1), k);
                    assert forall|j: int| 0 <= j < rest.len() implies (#[trigger] get_path(c, rest.take(j)) matches Some(x) ==> x is Object) by {
                        assert(p.take(j + 1).drop_first() =~= rest.take(j));
                        assert(p.take(j + 1)[0] == k);
                        assert(get_path(u, p.take(j + 1)) == get_path(c, rest.take(j)));
                    }
                    lemma_merged_covers(c, v1, rest);
                    let w = lemma_merged_fields_later(uf, df, i + 1, df.len() as int, k);
                } else {
                    let w = lemma_merged_fields_later(uf, df, i + 1, df.len() as int, k);
                    assert(rest.len() == 0);
                    assert(get_path(w, rest) == Some(w));
                }
            },
        }
    }
}

/// Completing from the defaults fills every gap the defaults cover, at any
/// depth: a path that leads somewhere in the defaults leads somewhere in the
/// result, as long as the user's tree holds an object (or nothing) at each
/// step before its end.
pub proof fn lemma_merge_covers_defaults(u: JsonView, d: JsonView, path: Seq<Seq<char>>)
    requires
        get_path(d, path).is_some(),
        forall|j: int| 0 <= j < path.len() ==> (#[trigger] get_path(u, path.take(j)) matches Some(x) ==> x is Object),
    ensures
        get_path(merged(u, d), path).is_some(),
{
    lemma_merged_covers(u, d, path);
}

/// Completing from the defaults never overwrites or removes anything the
/// user wrote, at any depth: every path into the user's tree still leads
/// somewhere in the result, and to the very same value wherever the user's
/// value there is not an object.
pub proof fn lemma_merge_keeps_user_deep(u: JsonView, d: JsonView, path: Seq<Seq<char>>)
    requires
        get_path(u, path).is_some(),
    ensures
        get_path(merged(u, d), path).is_some(),
        !(get_path(u, path).unwrap() is Object) ==> get_path(merged(u, d), path) == get_path(u, path),
{
    lemma_merged_keeps_all(u, d);
    assert(get_path(u, path).is_some());
}

/// No object in `v`, at any depth, names a member twice (always so for
/// JSON read into a map).
pub open spec fn unique_keys(v: JsonView) -> bool
    decreases v, 0int,
{
    match v {
        JsonView::Object(fs) => fields_unique(fs, fs.len() as int),
        _ => true,
    }
}

/// The first `n` members of `fs` have distinct names and unique keys inside.
pub open spec fn fields_unique(fs: Fields, n: int) -> bool
    decreases fs, n,
{
    if n <= 0 || n > fs.len() {
        true
    } else {
        proof {
            assert(decreases_to!(fs => fs[n - 1]));
        }
        &&& fields_unique(fs, n - 1)
        &&& (forall|i: int| 0 <= i < n - 1 ==> #[trigger] fs[i].0 != fs[n - 1].0)
        &&& unique_keys(fs[n - 1].1)
    }
}

proof fn lemma_fields_unique_at(fs: Fields, n: int, i: int, j: int)
    requires
        0 <= n <= fs.len(),
        fields_unique(fs, n),
        0 <= i < n,
        0 <= j < n,
    ensures
        i != j ==> fs[i].0 != fs[j].0,
        unique_keys(fs[i].1),
    decreases n,
{
    if n - 1 != i && n - 1 != j {
        lemma_fields_unique_at(fs, n - 1, i, j);
    } else if n - 1 == i && n - 1 != j {
        lemma_fields_unique_at(fs, n - 1, j, j);
    } else if n - 1 != i && n - 1 == j {
        lemma_fields_unique_at(fs, n - 1, i, i);
    }
}

proof fn lemma_member_at(fs: Fields, i: int)
    requires
        0 <= i < fs.len(),
        forall|j: int| 0 <= j < i ==> #[trigger] fs[j].0 != fs[i].0,
    ensures
        member(fs, fs[i].0) == Some(fs[i].1),
    decreases i,
{
    if i > 0 {
        let t = fs.drop_first();
        assert forall|j: int| 0 <= j < i - 1 implies #[trigger] t[j].0 != t[i - 1].0 by {
            assert(t[j] == fs[j + 1]);
        }
        lemma_member_at(t, i - 1);
        assert(fs[0].0 != fs[i].0);
    }
}

proof fn lemma_untouched_range(acc: Fields, df: Fields, m: int, n: int, key: Seq<char>)
    requires
        0 <= m <= n <= df.len(),
        forall|j: int| m <= j < n ==> #[trigger] df[j].0 != key,
    ensures
        member(merged_fields(acc, df, n), key) == member(merged_fields(acc, df, m), key),
    decreases n,
{
    if n > m {
        lemma_untouched_range(acc, df, m, n - 1, key);
        let prev = merged_fields(acc, df, n - 1);
        let k = df[n - 1].0;
        let v = df[n - 1].1;
        assert(k != key);
        match member(prev, k) {
            None => {
                lemma_member_none(prev, k);
                lemma_upsert_new(prev, k, v);
                lemma_member_upsert(prev, k, v, key);
            },
            Some(cc) => if v is Object {
                lemma_member_upsert(prev, k, merged(cc, v), key);
            },
        }
    }
}

/// `acc` has a member `k`, and it already absorbs `w` when `w` is an object.
pub open spec fn absorbed(acc: Fields, k: Seq<char>, w: JsonView) -> bool {
    match member(acc, k) {
        Some(c) => w is Object ==> merged(c, w) == c,
        None => false,
    }
}

/// Merging changes nothing when every member of the defaults is already
/// there and, where the default is an object, already absorbs it.
proof fn lemma_merged_fields_noop(acc: Fields, df: Fields, n: int)
    requires
        0 <= n <= df.len(),
        forall|j: int|
            0 <= j < n ==> absorbed(acc, #[trigger] df[j].0, df[j].1),
    ensures
        merged_fields(acc, df, n) == acc,
    decreases n,
{
    if n > 0 {
        lemma_merged_fields_noop(acc, df, n - 1);
        let k = df[n - 1].0;
        let v = df[n - 1].1;
        assert(absorbed(acc, df[n - 1].0, df[n - 1].1));
        let c = member(acc, k).unwrap();
        if v is Object {
            lemma_member_upsert(acc, k, c, k);
        }
    }
}

proof fn lemma_merged_self(v: JsonView)
    requires
        unique_keys(v),
    ensures
        merged(v, v) == v,
    decreases v, 0int,
{
    match v {
        JsonView::Object(vf) => {
            assert forall|j: int|
                0 <= j < vf.len() implies absorbed(vf, #[trigger] vf[j].0, vf[j].1) by {
                assert forall|i: int| 0 <= i < j implies #[trigger] vf[i].0 != vf[j].0 by {
                    lemma_fields_unique_at(vf, vf.len() as int, i, j);
                }
                lemma_member_at(vf, j);
                lemma_fields_unique_at(vf, vf.len() as int, j, j);
                assert(decreases_to!(v => vf[j].1)) by {
                    assert(decreases_to!(v => vf));
                    assert(decreases_to!(vf => vf[j]));
                }
                lemma_merged_self(vf[j].1);
            }
            lemma_merged_fields_noop(vf, vf, vf.len() as int);
        },
        _ => {},
    }
}

proof fn lemma_merged_absorbs(x: JsonView, v: JsonView)
    requires
        unique_keys(v),
    ensures
        merged(merged(x, v), v) == merged(x, v),
    decreases v, 0int,
{
    match v {
        JsonView::Object(vf) => match x {
            JsonView::Object(xf) => {
                let n = vf.len() as int;
                let mf = merged_fields(xf, vf, n);
                assert forall|j: int|
                    0 <= j < n implies absorbed(mf, #[trigger] vf[j].0, vf[j].1) by {
                    let k = vf[j].0;
                    let w = vf[j].1;
                    assert forall|i: int| 0 <= i < j implies #[trigger] vf[i].0 != k by {
                        lemma_fields_unique_at(vf, n, i, j);
                    }
                    assert forall|i: int| j + 1 <= i < n implies #[trigger] vf[i].0 != k by {
                        lemma_fields_unique_at(vf, n, i, j);
                    }
                    lemma_fields_unique_at(vf, n, j, j);
                    lemma_merged_fields_untouched(xf, vf, j, k);
                    lemma_untouched_range(xf, vf, j + 1, n, k);
                    let prev = merged_fields(xf, vf, j);
                    assert(decreases_to!(v => w)) by {
                        assert(decreases_to!(v => vf));
                        assert(decreases_to!(vf => vf[j]));
                    }
                    match member(xf, k) {
                        None => {
                            lemma_member_none(prev, k);
                            lemma_upsert_new(prev, k, w);
                            lemma_member_upsert(prev, k, w, k);
                            if w is Object {
                                lemma_merged_self(w);
                            }
                        },
                        Some(c0) => {
                            if w is Object {
                                lemma_member_upsert(prev, k, merged(c0, w), k);
                                lemma_merged_absorbs(c0, w);
                            }
                        },
                    }
                }
                lemma_merged_fields_noop(mf, vf, n);
            },
            _ => {},
        },
        _ => {},
    }
}

/// Completing from the defaults a second time changes nothing, when the
/// defaults name no member twice in any object (as JSON read into a map
/// never does).
pub proof fn lemma_merge_idempotent(u: JsonView, d: JsonView)
    requires
        unique_keys(d),
    ensures
        merged(merged(u, d), d) == merged(u, d),
{
    lemma_merged_absorbs(u, d);
}

proof fn lemma_jviews_push(s: Seq<Json>, x: Json)
    ensures
        jviews(s.push(x)) == jviews(s).push(jview(x)),
{
    assert(s.push(x).drop_last() =~= s);
}

/// A deep copy of a JSON value.
pub fn copy_json(j: &Json) -> (r: Json)
    ensures
        jview(r) == jview(*j),
    decreases j,
{
    match j {
        Json::Null => Json::Null,
        Json::Bool(b) => Json::Bool(*b),
        Json::Number(n) => Json::Number(owned(n.as_str())),
        Json::Str(s) => Json::Str(owned(s.as_str())),
        Json::Array(items) => {
            let mut out: Vec<Json> = Vec::new();
            let mut i: usize = 0;
            while i < items.len()
                invariant
                    i <= items.len(),
                    jviews(out@) == jviews(items@.take(i as int)),
                    *j == Json::Array(*items),
                decreases items.len() - i,
            {
                proof {
                    assert(decreases_to!(*j => (*j)->Array_0));
                    assert(decreases_to!(*items => items@));
                    assert(decreases_to!(items@ => items@[i as int]));
                    assert(decreases_to!(*j => items@[i as int]));
                }
                let c = copy_json(&items[i]);
                proof {
                    lemma_jviews_push(out@, c);
                    lemma_jviews_push(items@.take(i as int), items@[i as int]);
                    assert(items@.take(i as int).push(items@[i as int]) =~= items@.take(i + 1));
                }
                out.push(c);
                i = i + 1;
            }
            assert(items@.take(i as int) =~= items@);
            Json::Array(out)
        },
        Json::Object(fs) => {
            let mut out: Vec<(String, Json)> = Vec::new();
            let mut i: usize = 0;
            while i < fs.len()
                invariant
                    i <= fs.len(),
                    fviews(out@) == fviews(fs@.take(i as int)),
                    *j == Json::Object(*fs),
                decreases fs.len() - i,
            {
                proof {
                    assert(decreases_to!(*j => (*j)->Object_0));
                    assert(decreases_to!(*fs => fs@));
                    assert(decreases_to!(fs@ => fs@[i as int]));
                    assert(decreases_to!(fs@[i as int] => fs@[i as int].1));
                    assert(decreases_to!(*j => fs@[i as int].1));
                }
                let c = copy_json(&fs[i].1);
                let k = owned(fs[i].0.as_str());
                proof {
                    lemma_fviews_push(out@, (k, c));
                    lemma_fviews_push(fs@.take(i as int), fs@[i as int]);
                    assert(fs@.take(i as int).push(fs@[i as int]) =~= fs@.take(i + 1));
                }
                out.push((k, c));
                i = i + 1;
            }
            assert(fs@.take(i as int) =~= fs@);
            Json::Object(out)
        },
    }
}

/// The user's settings completed from the defaults: each member of a
/// defaults object that the user's object lacks is added (a deep copy), and
/// where both have a member and the default one is an object, the two are
/// merged the same way. Everything else the user wrote stays as it is.
pub fn merge_defaults(user: Json, defaults: &Json) -> (r: Json)
    ensures
        jview(r) == merged(jview(user), jview(*defaults)),
    decreases defaults,
{
    match defaults {
        Json::Object(df) => match user {
            Json::Object(uf) => {
                let ghost dv = fviews(df@);
                let ghost uv = fviews(uf@);
                proof {
                    lemma_fviews(df@);
                }
                let mut acc: Vec<(String, Json)> = uf;
                let mut i: usize = 0;
                while i < df.len()
                    invariant
                        i <= df.len(),
                        dv == fviews(df@),
                        dv.len() == df.len(),
                        forall|k: int| 0 <= k < df.len() ==> #[trigger] dv[k] == (df@[k].0@, jview(df@[k].1)),
                        fviews(acc@) == merged_fields(uv, dv, i as int),
                        *defaults == Json::Object(*df),
                    decreases df.len() - i,
                {
                    let ghost prev = fviews(acc@);
                    let key = &df[i].0;
                    let val = &df[i].1;
                    proof {
                        lemma_fviews(acc@);
                        assert(dv[i as int] == (key@, jview(*val)));
                    }
                    match key_index(&acc, key.as_str()) {
                        None => {
                            proof {
                                lemma_upsert_new(prev, key@, JsonView::Null);
                            }
                            let c = copy_json(val);
                            let k = owned(key.as_str());
                            proof {
                                lemma_fviews_push(acc@, (k, c));
                            }
                            acc.push((k, c));
                        },
                        Some(j) => {
                            proof {
                                lemma_upsert_at(prev, key@, JsonView::Null, j as int);
                            }
                            match val {
                                Json::Object(_) => {
                                    proof {
                                        assert(decreases_to!(*defaults => (*defaults)->Object_0));
                                        assert(decreases_to!(*df => df@));
                                        assert(decreases_to!(df@ => df@[i as int]));
                                        assert(decreases_to!(df@[i as int] => df@[i as int].1));
                                        assert(decreases_to!(*defaults => df@[i as int].1));
                                    }
                                    let ghost before = acc@;
                                    let (k, old) = acc.remove(j);
                                    let m = merge_defaults(old, val);
                                    acc.insert(j, (k, m));
                                    proof {
                                        assert(acc@ =~= before.update(j as int, (k, m)));
                                        lemma_fviews_update(before, j as int, (k, m));
                                        lemma_upsert_at(prev, key@, jview(m), j as int);
                                    }
                                },
                                _ => {},
                            }
                        },
                    }
                    i = i + 1;
                }
                Json::Object(acc)
            },
            other => other,
        },
        _ => user,
    }
}

} // verus!
