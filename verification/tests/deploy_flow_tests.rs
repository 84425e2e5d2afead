use jarvis::config_json::Json;
use jarvis::deploy_flow::{jenkins_precheck, jenkins_test_reply, presets_view, retired_credentials, unwrap_save_input};

fn obj(fields: Vec<(&str, Json)>) -> Json {
    Json::Object(fields.into_iter().map(|(k, v)| (k.to_string(), v)).collect())
}

fn s(t: &str) -> Json {
    Json::Str(t.to_string())
}

#[test]
fn save_input_is_unwrapped_once() {
    let inner = obj(vec![("jenkinsUrl", s("http://ci"))]);
    match unwrap_save_input(obj(vec![("input", inner)])) {
        Json::Object(fs) => assert_eq!(fs[0].0, "jenkinsUrl"),
        _ => panic!("expected an object"),
    }
    match unwrap_save_input(obj(vec![("input", s("x"))])) {
        Json::Object(fs) => assert_eq!(fs[0].0, "input"),
        _ => panic!("expected an object"),
    }
    match unwrap_save_input(obj(vec![("input", obj(vec![])), ("other", s("y"))])) {
        Json::Object(fs) => assert_eq!(fs.len(), 2),
        _ => panic!("expected an object"),
    }
}

#[test]
fn removed_credentials_are_retired() {
    let old = vec!["alpha".to_string(), "beta".to_string(), "gamma".to_string()];
    let new = vec![" Alpha ".to_string(), "GAMMA".to_string()];
    assert_eq!(retired_credentials(&old, &new), vec!["beta".to_string()]);
    assert_eq!(retired_credentials(&old, &vec![]), old);
}

#[test]
fn jenkins_connection_checks() {
    assert_eq!(jenkins_precheck(" http://ci.local// ", " admin "), Ok(("http://ci.local".to_string(), "admin".to_string())));
    assert_eq!(jenkins_precheck(" / ", "admin").unwrap_err(), "请先填写 Jenkins 地址");
    assert_eq!(jenkins_precheck("http://ci", "  ").unwrap_err(), "请先填写用户名");
    assert_eq!(jenkins_test_reply(200, "").as_deref(), Ok("连接成功 ✓"));
    assert_eq!(jenkins_test_reply(204, "2.440").as_deref(), Ok("连接成功 ✓（Jenkins 2.440）"));
    assert_eq!(jenkins_test_reply(401, "").unwrap_err(), "认证失败：用户名或 token 不对");
    assert_eq!(jenkins_test_reply(403, "").unwrap_err(), "无权限（403）：账号权限不足");
    assert_eq!(jenkins_test_reply(502, "").unwrap_err(), "连接失败：HTTP 502");
}

#[test]
fn presets_view_reads_saved_credentials() {
    let v = obj(vec![
        ("jenkinsUrl", s("http://ci")),
        (
            "credentials",
            Json::Array(vec![
                obj(vec![("name", s("main")), ("username", s("bot")), ("projects", Json::Array(vec![s("web")]))]),
                obj(vec![("name", s("spare"))]),
            ]),
        ),
    ]);
    let (url, creds) = presets_view(&v);
    assert_eq!(url, "http://ci");
    assert_eq!(creds.len(), 2);
    assert_eq!(creds[0].username, "bot");
    assert!(matches!(&creds[0].projects, Json::Array(p) if p.len() == 1));
    assert_eq!(creds[1].username, "");
    assert!(matches!(&creds[1].projects, Json::Array(p) if p.is_empty()));
    let (url2, creds2) = presets_view(&s("broken"));
    assert_eq!(url2, "");
    assert!(creds2.is_empty());
}
