use jarvis::config_json::{text_at_path, Json};
use jarvis::llm_profiles::{
    active_profile_id, delete_profile, profiles_array_ok, save_current_as_profile, switch_profile,
    upsert_profile, ActiveChange,
};

fn obj(fields: Vec<(&str, Json)>) -> Json {
    Json::Object(fields.into_iter().map(|(k, v)| (k.to_string(), v)).collect())
}

fn s(t: &str) -> Json {
    Json::Str(t.to_string())
}

fn path(keys: &[&str]) -> Vec<String> {
    keys.iter().map(|k| k.to_string()).collect()
}

fn profile_ids(cfg: &Json) -> Vec<String> {
    match cfg {
        Json::Object(fs) => match fs.iter().find(|(k, _)| k == "llmProfiles") {
            Some((_, Json::Array(ps))) => ps
                .iter()
                .map(|p| match p {
                    Json::Object(pf) => match pf.iter().find(|(k, _)| k == "id") {
                        Some((_, Json::Str(id))) => id.clone(),
                        _ => String::new(),
                    },
                    _ => String::new(),
                })
                .collect(),
            _ => vec![],
        },
        _ => vec![],
    }
}

fn base() -> Json {
    obj(vec![("llm", obj(vec![("provider", s("deepseek")), ("model", s("deepseek-chat")), ("apiKey", s(""))]))])
}

#[test]
fn save_current_creates_and_activates_profile() {
    let cfg = save_current_as_profile(base(), "p1", "DeepSeek").unwrap();
    assert_eq!(profile_ids(&cfg), vec!["p1"]);
    assert_eq!(active_profile_id(&cfg), "p1");
    assert!(save_current_as_profile(s("not an object"), "p1", "x").is_err());
}

#[test]
fn upsert_switch_and_delete_profiles() {
    let cfg = upsert_profile(base(), "a", "A", "openai", "https://a", "gpt", Some("responses")).unwrap();
    let (cfg, activated) = cfg;
    assert!(activated);
    assert_eq!(text_at_path(&cfg, &path(&["llm", "provider"])).as_deref(), Some("openai"));
    assert_eq!(text_at_path(&cfg, &path(&["llm", "wireApi"])).as_deref(), Some("responses"));
    let (cfg, activated) = upsert_profile(cfg, "b", "B", "anthropic", "https://b", "model-b", None).unwrap();
    assert!(!activated);
    assert_eq!(profile_ids(&cfg), vec!["a", "b"]);
    assert_eq!(active_profile_id(&cfg), "a");

    let cfg = switch_profile(cfg, "b").unwrap();
    assert_eq!(active_profile_id(&cfg), "b");
    assert_eq!(text_at_path(&cfg, &path(&["llm", "model"])).as_deref(), Some("model-b"));
    assert!(switch_profile(base(), "zzz").is_err());

    let defaults = obj(vec![("provider", s("deepseek")), ("baseUrl", s("https://api.deepseek.com")), ("model", s("deepseek-chat"))]);
    let (cfg, change) = delete_profile(cfg, "b", &defaults).unwrap();
    assert!(matches!(change, ActiveChange::Switched(ref id) if id == "a"));
    assert_eq!(profile_ids(&cfg), vec!["a"]);
    assert_eq!(active_profile_id(&cfg), "a");
    let (cfg, change) = delete_profile(cfg, "a", &defaults).unwrap();
    assert!(matches!(change, ActiveChange::Cleared));
    assert!(profile_ids(&cfg).is_empty());
    assert_eq!(active_profile_id(&cfg), "");
    assert_eq!(text_at_path(&cfg, &path(&["llm", "provider"])).as_deref(), Some("deepseek"));
    assert_eq!(text_at_path(&cfg, &path(&["llm", "apiKey"])), None);
    let (_, change) = delete_profile(cfg, "missing", &defaults).unwrap();
    assert!(matches!(change, ActiveChange::Unchanged));
}

#[test]
fn profiles_must_be_an_array() {
    assert!(profiles_array_ok(&base()));
    assert!(!profiles_array_ok(&obj(vec![("llmProfiles", s("x"))])));
}
