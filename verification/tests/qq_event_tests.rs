use jarvis::config_json::Json;
use jarvis::qq_event::qq_event_message;
use jarvis::redact::{weave_redacted, redact_qq_secret_echo, redact_tokenish_text, redacted_match};

fn obj(fields: Vec<(&str, Json)>) -> Json {
    Json::Object(fields.into_iter().map(|(k, v)| (k.to_string(), v)).collect())
}

fn s(t: &str) -> Json {
    Json::Str(t.to_string())
}

#[test]
fn private_message_becomes_c2c_chat() {
    let d = obj(vec![("content", s("  你好  ")), ("author", obj(vec![("user_openid", s("u1"))]))]);
    let m = qq_event_message("C2C_MESSAGE_CREATE", &d, &vec![], &vec![], 42).unwrap();
    assert_eq!(m.channel, "qqbot");
    assert_eq!(m.chat_id, "c2c:u1");
    assert_eq!(m.sender_id, "u1");
    assert_eq!(m.text, "你好");
    assert_eq!(m.timestamp, 42);
    assert!(m.sender_name.is_none());
    // Not on the allow-list.
    assert!(qq_event_message("C2C_MESSAGE_CREATE", &d, &vec!["u2".to_string()], &vec![], 0).is_none());
    assert!(qq_event_message("C2C_MESSAGE_CREATE", &d, &vec!["u1".to_string()], &vec![], 0).is_some());
}

#[test]
fn group_mention_falls_back_to_group_id() {
    let d = obj(vec![("content", s("@bot 状态")), ("group_id", s("g9"))]);
    let m = qq_event_message("GROUP_AT_MESSAGE_CREATE", &d, &vec![], &vec![], 1).unwrap();
    assert_eq!(m.chat_id, "group:g9");
    assert_eq!(m.sender_id, "g9");
    let d2 = obj(vec![
        ("content", s("hi")),
        ("group_openid", s("g1")),
        ("author", obj(vec![("member_openid", s("m7"))])),
    ]);
    let m2 = qq_event_message("GROUP_AT_MESSAGE_CREATE", &d2, &vec![], &vec!["g1".to_string()], 1).unwrap();
    assert_eq!(m2.sender_id, "m7");
    assert!(qq_event_message("GROUP_AT_MESSAGE_CREATE", &d2, &vec![], &vec!["g2".to_string()], 1).is_none());
}

#[test]
fn blank_or_unknown_events_are_dropped() {
    let blank = obj(vec![("content", s("   ")), ("author", obj(vec![("user_openid", s("u1"))]))]);
    assert!(qq_event_message("C2C_MESSAGE_CREATE", &blank, &vec![], &vec![], 0).is_none());
    let d = obj(vec![("content", s("x")), ("author", obj(vec![("user_openid", s("u1"))]))]);
    assert!(qq_event_message("READY", &d, &vec![], &vec![], 0).is_none());
    let no_id = obj(vec![("content", s("x"))]);
    assert!(qq_event_message("C2C_MESSAGE_CREATE", &no_id, &vec![], &vec![], 0).is_none());
}

#[test]
fn credentials_are_redacted_from_replies() {
    let reply = r#"{"access_token": "abc", "expires_in": 7200, "token":"t-1"}"#;
    assert_eq!(
        redact_tokenish_text(reply),
        r#"{"access_token":"<redacted>", "expires_in": 7200, "token":"<redacted>"}"#
    );
    assert_eq!(
        redact_qq_secret_echo(r#"bad secret s3cr3t {"clientSecret":"s3cr3t"}"#, " s3cr3t "),
        r#"bad secret <redacted> {"clientSecret":"<redacted>"}"#
    );
    assert_eq!(redact_qq_secret_echo("nothing here", "  "), "nothing here");
    assert_eq!(redacted_match("no colon"), "<redacted>");
}

#[test]
fn secret_never_echoed_back() {
    let out = redact_qq_secret_echo(r#"{"clientSecret":"9XK2PQ","x":1}"#, "9XK2PQ");
    assert_eq!(out, r#"{"clientSecret":"<redacted>","x":1}"#);
    let out = redact_qq_secret_echo("key 9XK2PQ9XK2PQ and 9XK2PQ", "9XK2PQ");
    assert!(!out.contains("9XK2PQ"));
}

#[test]
fn weave_redacts_each_match() {
    let parts = vec!["{".to_string(), ",\"x\":1}".to_string()];
    let matches = vec!["\"token\" : \"abc\"".to_string()];
    assert_eq!(weave_redacted(&parts, &matches), "{\"token\" :\"<redacted>\",\"x\":1}");
    assert_eq!(weave_redacted(&vec!["plain".to_string()], &Vec::new()), "plain");
}
