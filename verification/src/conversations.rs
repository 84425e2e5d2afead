//! Saved conversations: which ids may name a conversation file, the summary
//! shown in the side bar, and its order (most recently updated first).

use vstd::prelude::*;
use crate::tasks::utf8_len;
use crate::text::{chars_of, owned};

verus! {

/// What the side bar shows of a saved conversation.
#[derive(Debug, Clone)]
pub struct ConversationMeta {
    pub id: String,
    pub title: String,
    pub created_at: i64,
    pub updated_at: i64,
    pub message_count: usize,
}

/// Bytes of the UTF-8 encoding of a text.
pub open spec fn utf8_size(s: Seq<char>) -> nat
    decreases s.len(),
{
    if s.len() == 0 {
        0
    } else {
        utf8_size(s.drop_last()) + utf8_len(s.last())
    }
}

/// A character an id may hold: an ASCII letter or digit, `_`, `-` or `.`.
pub open spec fn id_char(c: char) -> bool {
    ('a' <= c && c <= 'z') || ('A' <= c && c <= 'Z') || ('0' <= c && c <= '9') || c == '_' || c == '-' || c == '.'
}

/// Why an id is refused, if it is: its size (1 to 80 bytes), its
/// characters, or a leading dot or a `..`.
pub open spec fn id_error(id: Seq<char>) -> Option<Seq<char>> {
    if id.len() == 0 || utf8_size(id) > 80 {
        Some("会话 id 长度非法"@)
    } else if exists|i: int| 0 <= i < id.len() && !id_char(#[trigger] id[i]) {
        Some("会话 id 含非法字符"@)
    } else if id[0] == '.' || exists|i: int| 0 <= i < id.len() - 1 && #[trigger] id[i] == '.' && id[i + 1] == '.' {
        Some("会话 id 不能以点开头或含 '..'"@)
    } else {
        None
    }
}

/// Checks that an id can name a conversation file without leaving its
/// directory.
pub fn validate_id(id: &str) -> (r: Result<(), String>)
    ensures
        match id_error(id@) {
            Some(e) => r is Err && r->Err_0@ == e,
            None => r is Ok,
        },
{
    let v = chars_of(id);
    let mut size: usize = 0;
    let mut i: usize = 0;
    while i < v.len() && size <= 80
        invariant
            i <= v.len(),
            size == utf8_size(v@.take(i as int)),
            size <= 84,
        decreases v.len() - i,
    {
        let c = v[i];
        let u = c as u32;
        let n: usize = if u < 0x80 {
            1
        } else if u < 0x800 {
            2
        } else if u < 0x10000 {
            3
        } else {
            4
        };
        assert(v@.take(i + 1).drop_last() =~= v@.take(i as int));
        size = size + n;
        i = i + 1;
    }
    proof {
        lemma_utf8_size_mono(v@, i as int);
    }
    if v.len() == 0 || size > 80 {
        assert(i == v.len() ==> v@.take(i as int) =~= v@);
        return Err(owned("会话 id 长度非法"));
    }
    assert(v@.take(i as int) =~= v@);
    let mut k: usize = 0;
    while k < v.len()
        invariant
            k <= v.len(),
            v@ == id@,
            v.len() > 0,
            utf8_size(id@) <= 80,
            forall|j: int| 0 <= j < k ==> id_char(#[trigger] v@[j]),
        decreases v.len() - k,
    {
        let c = v[k];
        let ok = ('a' <= c && c <= 'z') || ('A' <= c && c <= 'Z') || ('0' <= c && c <= '9') || c == '_' || c == '-' || c == '.';
        if !ok {
            assert(!id_char(v@[k as int]));
            return Err(owned("会话 id 含非法字符"));
        }
        k = k + 1;
    }
    if v[0] == '.' {
        return Err(owned("会话 id 不能以点开头或含 '..'"));
    }
    let mut m: usize = 0;
    while m < v.len() - 1
        invariant
            v.len() >= 1,
            m <= v.len() - 1,
            v@ == id@,
            utf8_size(id@) <= 80,
            v@[0] != '.',
            forall|j: int| 0 <= j < v.len() ==> id_char(#[trigger] v@[j]),
            forall|j: int| 0 <= j < m ==> !(#[trigger] v@[j] == '.' && v@[j + 1] == '.'),
        decreases v.len() - m,
    {
        if v[m] == '.' && v[m + 1] == '.' {
            assert(v@[m as int] == '.' && v@[m + 1] == '.');
            return Err(owned("会话 id 不能以点开头或含 '..'"));
        }
        m = m + 1;
    }
    Ok(())
}

proof fn lemma_utf8_size_mono(s: Seq<char>, i: int)
    requires
        0 <= i <= s.len(),
    ensures
        utf8_size(s.take(i)) <= utf8_size(s),
        utf8_size(s.take(i)) >= i,
    decreases s.len() - i,
{
    lemma_utf8_size_min(s.take(i));
    if i < s.len() {
        lemma_utf8_size_mono(s, i + 1);
        assert(s.take(i + 1).drop_last() =~= s.take(i));
    } else {
        assert(s.take(i) =~= s);
    }
}

proof fn lemma_utf8_size_min(s: Seq<char>)
    ensures
        utf8_size(s) >= s.len(),
    decreases s.len(),
{
    if s.len() > 0 {
        lemma_utf8_size_min(s.drop_last());
    }
}

/// The summary of a saved conversation from the fields read out of its
/// file: none without an id; the title `未命名`, creation time 0, update
/// time equal to the creation time and no messages when missing.
pub fn meta_from_fields(
    id: Option<String>,
    title: Option<String>,
    created_at: Option<i64>,
    updated_at: Option<i64>,
    message_count: Option<usize>,
) -> (r: Option<ConversationMeta>)
    ensures
        match r {
            None => match id {
                Some(i) => i@.len() == 0,
                None => true,
            },
            Some(m) => {
                &&& id matches Some(i) && i@.len() > 0 && m.id@ == i@
                &&& m.title@ == match title {
                    Some(t) => t@,
                    None => "未命名"@,
                }
                &&& m.created_at == match created_at {
                    Some(c) => c,
                    None => 0,
                }
                &&& m.updated_at == match updated_at {
                    Some(u) => u,
                    None => m.created_at,
                }
                &&& m.message_count == match message_count {
                    Some(n) => n,
                    None => 0,
                }
            },
        },
{
    let id = match id {
        Some(i) => if i.as_str().is_empty() {
            return None;
        } else {
            i
        },
        None => return None,
    };
    let title = match title {
        Some(t) => t,
        None => owned("未命名"),
    };
    let created_at = match created_at {
        Some(c) => c,
        None => 0,
    };
    let updated_at = match updated_at {
        Some(u) => u,
        None => created_at,
    };
    let message_count = match message_count {
        Some(n) => n,
        None => 0,
    };
    Some(ConversationMeta { id, title, created_at, updated_at, message_count })
}

/// A summary as plain values.
pub open spec fn meta_view(m: ConversationMeta) -> (Seq<char>, Seq<char>, i64, i64, usize) {
    (m.id@, m.title@, m.created_at, m.updated_at, m.message_count)
}

/// `out` is `input` reordered through `idx` (each input position used
/// once): most recently updated first, ties in input order.
pub open spec fn recent_first(out: Seq<ConversationMeta>, input: Seq<ConversationMeta>, idx: Seq<int>) -> bool {
    &&& idx.len() == out.len() == input.len()
    &&& forall|k: int| 0 <= k < out.len() ==> 0 <= #[trigger] idx[k] < input.len() && meta_view(out[k]) == meta_view(input[idx[k]])
    &&& forall|k1: int, k2: int| 0 <= k1 < k2 < out.len() ==> idx[k1] != idx[k2]
    &&& forall|k1: int, k2: int|
        0 <= k1 < k2 < out.len() ==> (#[trigger] out[k1]).updated_at > (#[trigger] out[k2]).updated_at || (
        out[k1].updated_at == out[k2].updated_at && idx[k1] < idx[k2])
}

fn copy_meta(m: &ConversationMeta) -> (r: ConversationMeta)
    ensures
        meta_view(r) == meta_view(*m),
{
    ConversationMeta {
        id: m.id.clone(),
        title: m.title.clone(),
        created_at: m.created_at,
        updated_at: m.updated_at,
        message_count: m.message_count,
    }
}

/// Orders summaries most recently updated first; equal times keep their
/// order.
pub fn sort_recent_first(metas: &Vec<ConversationMeta>) -> (r: Vec<ConversationMeta>)
    ensures
        exists|idx: Seq<int>| recent_first(r@, metas@, idx),
{
    let mut out: Vec<ConversationMeta> = Vec::new();
    let ghost mut idx: Seq<int> = Seq::empty();
    let mut i: usize = 0;
    while i < metas.len()
        invariant
            i <= metas.len(),
            idx.len() == out.len() == i,
            forall|k: int| 0 <= k < out.len() ==> 0 <= #[trigger] idx[k] < i && meta_view(out@[k]) == meta_view(metas@[idx[k]]),
            forall|k1: int, k2: int| 0 <= k1 < k2 < out.len() ==> idx[k1] != idx[k2],
            forall|k1: int, k2: int|
                0 <= k1 < k2 < out.len() ==> (#[trigger] out@[k1]).updated_at > (#[trigger] out@[k2]).updated_at || (
                out@[k1].updated_at == out@[k2].updated_at && idx[k1] < idx[k2]),
        decreases metas.len() - i,
    {
        let a = copy_meta(&metas[i]);
        let mut p: usize = 0;
        while p < out.len() && out[p].updated_at >= a.updated_at
            invariant
                p <= out.len(),
                forall|k: int| 0 <= k < p ==> (#[trigger] out@[k]).updated_at >= a.updated_at,
            decreases out.len() - p,
        {
            p = p + 1;
        }
        let ghost old_out = out@;
        let ghost old_idx = idx;
        out.insert(p, a);
        proof {
            idx = old_idx.insert(p as int, i as int);
            assert(out@ == old_out.insert(p as int, a));
            assert forall|k: int| 0 <= k < out@.len() implies 0 <= #[trigger] idx[k] < i + 1 && meta_view(out@[k]) == meta_view(metas@[idx[k]]) by {
                if k < p {
                    assert(idx[k] == old_idx[k] && out@[k] == old_out[k]);
                } else if k > p {
                    assert(idx[k] == old_idx[k - 1] && out@[k] == old_out[k - 1]);
                }
            }
            assert forall|k1: int, k2: int| 0 <= k1 < k2 < out@.len() implies idx[k1] != idx[k2] by {
                if k1 != p && k2 != p {
                    let a1 = if k1 < p { k1 } else { k1 - 1 };
                    let a2 = if k2 < p { k2 } else { k2 - 1 };
                    assert(idx[k1] == old_idx[a1] && idx[k2] == old_idx[a2]);
                } else if k1 == p {
                    assert(idx[k2] == old_idx[k2 - 1]);
                } else {
                    assert(idx[k1] == old_idx[k1]);
                }
            }
            assert forall|k1: int, k2: int| 0 <= k1 < k2 < out@.len() implies (#[trigger] out@[k1]).updated_at > (#[trigger] out@[k2]).updated_at || (
            out@[k1].updated_at == out@[k2].updated_at && idx[k1] < idx[k2]) by {
                if k2 < p {
                    assert(out@[k1] == old_out[k1] && out@[k2] == old_out[k2]);
                    assert(idx[k1] == old_idx[k1] && idx[k2] == old_idx[k2]);
                } else if k2 == p {
                    assert(out@[k1] == old_out[k1] && idx[k1] == old_idx[k1]);
                } else if k1 == p {
                    assert(out@[k2] == old_out[k2 - 1] && idx[k2] == old_idx[k2 - 1]);
                    if k2 - 1 >= p {
                        assert(old_out[p as int].updated_at < a.updated_at || p >= old_out.len());
                    }
                } else if k1 < p {
                    assert(out@[k1] == old_out[k1] && out@[k2] == old_out[k2 - 1]);
                    assert(idx[k1] == old_idx[k1] && idx[k2] == old_idx[k2 - 1]);
                } else {
                    assert(out@[k1] == old_out[k1 - 1] && out@[k2] == old_out[k2 - 1]);
                    assert(idx[k1] == old_idx[k1 - 1] && idx[k2] == old_idx[k2 - 1]);
                }
            }
        }
        i = i + 1;
    }
    assert(recent_first(out@, metas@, idx));
    out
}

} // verus!
