use jarvis::settings_lists::{business_aliases, split_roots, string_list};
use jarvis::dotenv::dotenv_value;
use jarvis::config_merge::{copy_json, merge_defaults};
use jarvis::config_json::{
    hydrate_accounts, mark_secrets, set_at_path, strip_secrets, text_at_path, Json,
};

const PH: &str = "__SAVED__";

fn obj(fields: Vec<(&str, Json)>) -> Json {
    Json::Object(fields.into_iter().map(|(k, v)| (k.to_string(), v)).collect())
}

fn s(t: &str) -> Json {
    Json::Str(t.to_string())
}

fn path(keys: &[&str]) -> Vec<String> {
    keys.iter().map(|k| k.to_string()).collect()
}

fn config() -> Json {
    obj(vec![
        ("llm", obj(vec![("apiKey", s(" sk-123 ")), ("model", s("deepseek"))])),
        ("zentao", obj(vec![("sessionCookie", s("   "))])),
        ("channels", obj(vec![("telegram", obj(vec![("botToken", s(PH))])), ("qqbot", obj(vec![("appSecret", s("qq-secret"))]))])),
        (
            "llmProfiles",
            Json::Array(vec![
                obj(vec![("id", s("p1")), ("apiKey", s("k1"))]),
                obj(vec![("apiKey", s("orphan"))]),
                obj(vec![("id", s("p3"))]),
            ]),
        ),
    ])
}

#[test]
fn strip_moves_secrets_out() {
    let (stripped, writes) = strip_secrets(config(), PH);
    let w: Vec<(&str, &str)> = writes.iter().map(|(a, b)| (a.as_str(), b.as_str())).collect();
    assert_eq!(
        w,
        vec![("llm.apiKey", "sk-123"), ("channels.qqbot.appSecret", "qq-secret"), ("llm.profile.p1.apiKey", "k1")]
    );
    assert_eq!(text_at_path(&stripped, &path(&["llm", "apiKey"])).as_deref(), Some(PH));
    assert_eq!(text_at_path(&stripped, &path(&["llm", "model"])).as_deref(), Some("deepseek"));
    assert_eq!(text_at_path(&stripped, &path(&["channels", "qqbot", "appSecret"])).as_deref(), Some(PH));
    assert_eq!(text_at_path(&stripped, &path(&["zentao", "sessionCookie"])), None);
    // Stripping again finds nothing to move.
    let (again, writes2) = strip_secrets(stripped, PH);
    assert!(writes2.is_empty());
    assert_eq!(text_at_path(&again, &path(&["llm", "apiKey"])).as_deref(), Some(PH));
}

#[test]
fn strip_leaves_non_objects_alone() {
    let (v, w) = strip_secrets(Json::Null, PH);
    assert!(matches!(v, Json::Null));
    assert!(w.is_empty());
}

#[test]
fn set_path_creates_objects() {
    let v = set_at_path(Json::Null, &path(&["a", "b"]), 0, s("x"));
    assert_eq!(text_at_path(&v, &path(&["a", "b"])).as_deref(), Some("x"));
    let v = set_at_path(obj(vec![("a", s("not object"))]), &path(&["a", "b"]), 0, s("y"));
    assert_eq!(text_at_path(&v, &path(&["a", "b"])).as_deref(), Some("y"));
}

#[test]
fn mark_shows_placeholders_for_saved_accounts() {
    let accounts = hydrate_accounts(&config());
    assert_eq!(accounts[4..].to_vec(), vec!["llm.profile.p1.apiKey".to_string(), "llm.profile.p3.apiKey".to_string()]);
    let saved = vec!["zentao.sessionCookie".to_string(), "llm.profile.p3.apiKey".to_string()];
    let v = mark_secrets(config(), &saved, PH);
    assert_eq!(text_at_path(&v, &path(&["zentao", "sessionCookie"])).as_deref(), Some(PH));
    assert_eq!(text_at_path(&v, &path(&["llm", "apiKey"])).as_deref(), Some("sk-123"));
    if let Json::Object(fs) = &v {
        let profiles = fs.iter().find(|(k, _)| k == "llmProfiles").map(|(_, p)| p).unwrap();
        if let Json::Array(ps) = profiles {
            assert_eq!(text_at_path(&ps[2], &path(&["apiKey"])).as_deref(), Some(PH));
            assert_eq!(text_at_path(&ps[0], &path(&["apiKey"])).as_deref(), Some("k1"));
        } else {
            panic!("profiles must stay an array");
        }
    } else {
        panic!("settings must stay an object");
    }
    let fresh = mark_secrets(Json::Null, &vec!["llm.apiKey".to_string()], PH);
    assert_eq!(text_at_path(&fresh, &path(&["llm", "apiKey"])).as_deref(), Some(PH));
}

#[test]
fn merge_defaults_fills_missing_and_keeps_user_values() {
    let user = obj(vec![
        ("llm", obj(vec![("model", s("mine"))])),
        ("repoRoots", s("not-a-list")),
        ("channels", s("off")),
    ]);
    let defaults = obj(vec![
        ("llm", obj(vec![("model", s("default")), ("baseUrl", s("https://api"))])),
        ("channels", obj(vec![("telegram", obj(vec![("enabled", Json::Bool(false))]))])),
        ("leftClickAction", s("tasks")),
    ]);
    let merged = merge_defaults(user, &defaults);
    assert_eq!(text_at_path(&merged, &path(&["llm", "model"])).as_deref(), Some("mine"));
    assert_eq!(text_at_path(&merged, &path(&["llm", "baseUrl"])).as_deref(), Some("https://api"));
    assert_eq!(text_at_path(&merged, &path(&["repoRoots"])).as_deref(), Some("not-a-list"));
    assert_eq!(text_at_path(&merged, &path(&["channels"])).as_deref(), Some("off"));
    assert_eq!(text_at_path(&merged, &path(&["leftClickAction"])).as_deref(), Some("tasks"));
}

#[test]
fn merge_defaults_leaves_non_objects_alone() {
    let merged = merge_defaults(s("plain"), &obj(vec![("a", s("b"))]));
    assert!(matches!(merged, Json::Str(ref t) if t == "plain"));
    let copy = copy_json(&config());
    assert_eq!(text_at_path(&copy, &path(&["llm", "model"])).as_deref(), Some("deepseek"));
}

#[test]
fn dotenv_value_reads_first_matching_line() {
    let text = "# comment\n\nZENTAO_BASE_URL = \"http://pm.local\" \r\nZENTAO_ACCOUNT='alice'\nZENTAO_ACCOUNT=bob\nBROKEN LINE\n";
    assert_eq!(dotenv_value(text, "ZENTAO_ACCOUNT").as_deref(), Some("alice"));
    assert_eq!(dotenv_value(text, "ZENTAO_BASE_URL").as_deref(), Some("http://pm.local"));
    assert_eq!(dotenv_value(text, "MISSING"), None);
    assert_eq!(dotenv_value("#ZENTAO_ACCOUNT=x", "ZENTAO_ACCOUNT"), None);
    assert_eq!(dotenv_value("K=\"\"", "K").as_deref(), Some(""));
}

#[test]
fn settings_lists_keep_trimmed_strings() {
    let roots = Json::Array(vec![s(" D:/coding "), s("  "), Json::Bool(true), s("E:/work")]);
    assert_eq!(string_list(&roots), vec!["D:/coding".to_string(), "E:/work".to_string()]);
    assert!(string_list(&s("x")).is_empty());
    let aliases = obj(vec![
        ("物流", Json::Array(vec![s(" 门禁 "), s("计量")])),
        ("空", Json::Array(vec![s("  ")])),
        ("不是数组", s("x")),
    ]);
    let a = business_aliases(&aliases);
    assert_eq!(a.len(), 1);
    assert_eq!(a[0].0, "物流");
    assert_eq!(a[0].1, vec!["门禁".to_string(), "计量".to_string()]);
    assert_eq!(split_roots(" D:/a ; ,E:/b,"), vec!["D:/a".to_string(), "E:/b".to_string()]);
    assert!(split_roots("").is_empty());
}

#[test]
fn merge_defaults_keeps_and_fills_at_depth() {
    let user = obj(vec![(
        "channels",
        obj(vec![("telegram", obj(vec![("botToken", s("mine")), ("enabled", Json::Bool(true))])), ("qqbot", s("off"))]),
    )]);
    let defaults = obj(vec![(
        "channels",
        obj(vec![
            ("telegram", obj(vec![("enabled", Json::Bool(false)), ("allowedChatIds", Json::Array(vec![]))])),
            ("qqbot", obj(vec![("appId", s(""))])),
        ]),
    )]);
    let merged = merge_defaults(user, &defaults);
    assert_eq!(text_at_path(&merged, &path(&["channels", "telegram", "botToken"])).as_deref(), Some("mine"));
    assert_eq!(text_at_path(&merged, &path(&["channels", "qqbot"])).as_deref(), Some("off"));
    match &merged {
        Json::Object(top) => match &top[0].1 {
            Json::Object(ch) => match &ch[0].1 {
                Json::Object(tg) => {
                    assert_eq!(tg.len(), 3);
                    assert!(matches!(tg[1], (ref k, Json::Bool(true)) if k == "enabled"));
                    assert!(matches!(tg[2], (ref k, Json::Array(_)) if k == "allowedChatIds"));
                },
                _ => panic!("telegram is not an object"),
            },
            _ => panic!("channels is not an object"),
        },
        _ => panic!("not an object"),
    }
}

#[test]
fn merge_defaults_twice_changes_nothing() {
    let user = obj(vec![("llm", obj(vec![("model", s("mine"))])), ("channels", s("off"))]);
    let defaults = obj(vec![
        ("llm", obj(vec![("model", s("default")), ("baseUrl", s("https://api"))])),
        ("channels", obj(vec![("telegram", obj(vec![("enabled", Json::Bool(false))]))])),
        ("leftClickAction", s("tasks")),
    ]);
    let once = merge_defaults(user, &defaults);
    let twice = merge_defaults(copy_json(&once), &defaults);
    assert_eq!(format!("{:?}", twice), format!("{:?}", once));
}
