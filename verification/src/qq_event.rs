//! Turning a QQ bot gateway event into a channel message: which chat it
//! belongs to, who sent it, and whether the allow-lists let it through.

use vstd::prelude::*;
use crate::channels::ChannelMessage;
use crate::commit_link::{contains_string, strs};
use crate::config_json::{Json, JsonView, jview, member, fields_of, member_of, str_member};
use crate::text::{
    chars_of, owned, push_str, seq_starts_with, starts_with_chars, strip_repeated, string_of,
    trim, trim_seq, trim_start_matches_chars,
};

verus! {

/// Member `key`, or else member `alt`.
pub open spec fn member_or(v: JsonView, key: Seq<char>, alt: Seq<char>) -> Option<JsonView> {
    match member(fields_of(v), key) {
        Some(x) => Some(x),
        None => member(fields_of(v), alt),
    }
}

/// The chat and the sender of an event of kind `kind` with data `d`: a
/// private (`C2C_MESSAGE_CREATE`) message is chat `c2c:<openid>` from that
/// user; a group mention (`GROUP_AT_MESSAGE_CREATE`) is chat
/// `group:<group id>` from the mentioning member (the group itself when the
/// member is not named). Other kinds, or a missing id, give none.
pub open spec fn qq_chat(kind: Seq<char>, d: JsonView) -> Option<(Seq<char>, Seq<char>)> {
    if kind == "C2C_MESSAGE_CREATE"@ {
        match member(fields_of(d), "author"@) {
            Some(a) => match str_member(a, "user_openid"@) {
                Some(o) => Some(("c2c:"@ + o, o)),
                None => None,
            },
            None => None,
        }
    } else if kind == "GROUP_AT_MESSAGE_CREATE"@ {
        match member_or(d, "group_openid"@, "group_id"@) {
            Some(JsonView::Str(g)) => {
                let m = match member(fields_of(d), "author"@) {
                    Some(a) => match member_or(a, "member_openid"@, "user_openid"@) {
                        Some(JsonView::Str(s)) => s,
                        _ => g,
                    },
                    None => g,
                };
                Some(("group:"@ + g, m))
            },
            _ => None,
        }
    } else {
        None
    }
}

/// A chat passes the allow-lists: a non-empty user list must hold the user
/// of a `c2c:` chat, a non-empty group list the group of a `group:` chat
/// (the id after every leading repetition of the prefix).
pub open spec fn chat_allowed(chat: Seq<char>, users: Seq<Seq<char>>, groups: Seq<Seq<char>>) -> bool {
    &&& (seq_starts_with(chat, "c2c:"@) && users.len() > 0) ==> users.contains(strip_repeated(chat, "c2c:"@))
    &&& (seq_starts_with(chat, "group:"@) && groups.len() > 0) ==> groups.contains(
        strip_repeated(chat, "group:"@),
    )
}

/// The message an event carries, as chat, sender and trimmed text: none
/// for blank text, an unknown kind, a missing id, or a chat the allow-lists
/// keep out.
pub open spec fn qq_message_spec(kind: Seq<char>, d: JsonView, users: Seq<Seq<char>>, groups: Seq<Seq<char>>) -> Option<(Seq<char>, Seq<char>, Seq<char>)> {
    let text = match str_member(d, "content"@) {
        Some(s) => trim_seq(s),
        None => Seq::empty(),
    };
    if text.len() == 0 {
        None
    } else {
        match qq_chat(kind, d) {
            Some((c, s)) => if chat_allowed(c, users, groups) {
                Some((c, s, text))
            } else {
                None
            },
            None => None,
        }
    }
}

fn member_or_exec<'a>(v: &'a Json, key: &str, alt: &str) -> (r: Option<&'a Json>)
    ensures
        match r {
            Some(x) => member_or(jview(*v), key@, alt@) == Some(jview(*x)),
            None => member_or(jview(*v), key@, alt@).is_none(),
        },
{
    match member_of(v, key) {
        Some(x) => Some(x),
        None => member_of(v, alt),
    }
}

fn str_member_exec(v: &Json, key: &str) -> (r: Option<String>)
    ensures
        match r {
            Some(s) => str_member(jview(*v), key@) == Some(s@),
            None => str_member(jview(*v), key@).is_none(),
        },
{
    match member_of(v, key) {
        Some(Json::Str(s)) => Some(owned(s.as_str())),
        _ => None,
    }
}

fn prefixed(p: &str, s: &String) -> (r: String)
    ensures
        r@ == p@ + s@,
{
    let mut out = owned(p);
    push_str(&mut out, s.as_str());
    out
}

fn qq_chat_exec(kind: &str, d: &Json) -> (r: Option<(String, String)>)
    ensures
        match r {
            Some((c, s)) => qq_chat(kind@, jview(*d)) == Some((c@, s@)),
            None => qq_chat(kind@, jview(*d)).is_none(),
        },
{
    let k = chars_of(kind);
    let c2c = chars_of("C2C_MESSAGE_CREATE");
    let group = chars_of("GROUP_AT_MESSAGE_CREATE");
    if crate::text::seq_eq(&k, &c2c) {
        match member_of(d, "author") {
            Some(a) => match str_member_exec(a, "user_openid") {
                Some(o) => {
                    let chat = prefixed("c2c:", &o);
                    Some((chat, o))
                },
                None => None,
            },
            None => None,
        }
    } else if crate::text::seq_eq(&k, &group) {
        match member_or_exec(d, "group_openid", "group_id") {
            Some(Json::Str(g)) => {
                let m: String = match member_of(d, "author") {
                    Some(a) => match member_or_exec(a, "member_openid", "user_openid") {
                        Some(Json::Str(s)) => owned(s.as_str()),
                        _ => owned(g.as_str()),
                    },
                    None => owned(g.as_str()),
                };
                let chat = prefixed("group:", g);
                Some((chat, m))
            },
            _ => None,
        }
    } else {
        None
    }
}

fn id_allowed(chat: &Vec<char>, prefix: &str, list: &Vec<String>) -> (r: bool)
    ensures
        r == ((seq_starts_with(chat@, prefix@) && list.len() > 0) ==> strs(*list).contains(
            strip_repeated(chat@, prefix@),
        )),
{
    let p = chars_of(prefix);
    if starts_with_chars(chat, &p) && list.len() > 0 {
        let id = string_of(&trim_start_matches_chars(chat, &p));
        contains_string(list, &id)
    } else {
        true
    }
}

/// The channel message of a QQ bot gateway event of kind `kind` with data
/// `d`, received at `timestamp`: chat and sender as `qq_chat` gives them,
/// the trimmed `content` as text; none when the text is blank, the kind is
/// not a private message or a group mention, an id is missing, or the
/// allow-lists keep the chat out.
pub fn qq_event_message(kind: &str, d: &Json, allow_user_ids: &Vec<String>, allow_group_ids: &Vec<String>, timestamp: i64) -> (r: Option<ChannelMessage>)
    ensures
        match r {
            Some(m) => qq_message_spec(kind@, jview(*d), strs(*allow_user_ids), strs(*allow_group_ids))
                == Some((m.chat_id@, m.sender_id@, m.text@)) && m.channel@ == "qqbot"@ && m.sender_name.is_none()
                && m.timestamp == timestamp,
            None => qq_message_spec(kind@, jview(*d), strs(*allow_user_ids), strs(*allow_group_ids)).is_none(),
        },
{
    let text: String = match str_member_exec(d, "content") {
        Some(s) => trim(s.as_str()),
        None => String::new(),
    };
    if text.as_str().is_empty() {
        return None;
    }
    match qq_chat_exec(kind, d) {
        Some((chat, sender)) => {
            let cv = chars_of(chat.as_str());
            if id_allowed(&cv, "c2c:", allow_user_ids) && id_allowed(&cv, "group:", allow_group_ids) {
                Some(ChannelMessage {
                    channel: owned("qqbot"),
                    chat_id: chat,
                    sender_id: sender,
                    sender_name: None,
                    text,
                    timestamp,
                })
            } else {
                None
            }
        },
        None => None,
    }
}

} // verus!
