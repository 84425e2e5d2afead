use jarvis::config_json::{text_at_path, Json};
use jarvis::fine_report_flow::{
    editor_config_error, filter_parameters, login_token, open_report_error, open_report_url, parameters_form_body,
    parameters_url, read_content_error, read_content_url, session_id_from_html, editor_config_url,
};

fn obj(fields: Vec<(&str, Json)>) -> Json {
    Json::Object(fields.into_iter().map(|(k, v)| (k.to_string(), v)).collect())
}

fn s(t: &str) -> Json {
    Json::Str(t.to_string())
}

#[test]
fn session_id_is_found_in_the_report_page() {
    let a = "x FR.SessionMgr.register( '12345678-aaaa-bbbb-cccc-1234567890ab' ) y currentSessionID = 'ffffffff-aaaa-bbbb-cccc-1234567890ab'";
    assert_eq!(session_id_from_html(a).as_deref(), Ok("12345678-aaaa-bbbb-cccc-1234567890ab"));
    let b = "currentSessionID=\"ffffffff-aaaa-bbbb-cccc-1234567890ab\"";
    assert_eq!(session_id_from_html(b).as_deref(), Ok("ffffffff-aaaa-bbbb-cccc-1234567890ab"));
    let c = "id 00000000-1111-2222-3333-444444444444 end";
    assert_eq!(session_id_from_html(c).as_deref(), Ok("00000000-1111-2222-3333-444444444444"));
    assert_eq!(session_id_from_html("无").unwrap_err(), "未抓到 sessionID。HTML 总长 3 字符");
}

#[test]
fn expired_login_shows_in_replies() {
    assert!(open_report_error("").unwrap().starts_with("AUTH_EXPIRED: 打开报表返回空内容"));
    assert!(open_report_error("<a href='/webroot/Decision/Login'>").unwrap().contains("登录页"));
    assert_eq!(open_report_error("<html>report</html>"), None);
    assert!(editor_config_error("see decision/login").is_some());
    assert_eq!(editor_config_error("{}"), None);
    assert!(read_content_error("   ").unwrap().contains("空响应"));
    assert!(read_content_error("  <html>").unwrap().contains("非 JSON"));
    assert_eq!(read_content_error("{\"html\":\"<table>\"}"), None);
}

#[test]
fn login_token_is_read_from_known_places() {
    let v = obj(vec![("status", s("success")), ("data", obj(vec![("accessToken", s("eyJ.a.b"))]))]);
    assert_eq!(login_token(&v, "raw").as_deref(), Ok("eyJ.a.b"));
    let v2 = obj(vec![("token", s("t2"))]);
    assert_eq!(login_token(&v2, "raw").as_deref(), Ok("t2"));
    let v3 = obj(vec![("errorMsg", s("密码错误"))]);
    assert_eq!(login_token(&v3, "raw").unwrap_err(), "帆软登录未拿到 JWT：密码错误（原文：raw）");
    let v4 = obj(vec![("data", obj(vec![("accessToken", s(""))]))]);
    assert_eq!(login_token(&v4, "r").unwrap_err(), "帆软登录未拿到 JWT：未知错误（原文：r）");
}

#[test]
fn report_addresses_and_parameters() {
    assert_eq!(
        open_report_url("http://fr", "工时/明细.cpt"),
        "http://fr/webroot/decision/view/report?op=write&viewlet=%E5%B7%A5%E6%97%B6%2F%E6%98%8E%E7%BB%86.cpt"
    );
    assert_eq!(
        editor_config_url("http://fr", 1, 1700000000000),
        "http://fr/webroot/decision/view/report?op=fr_write&cmd=getEditorConfig&reportIndex=1&_=1700000000000"
    );
    assert_eq!(parameters_url("http://fr", "a b"), "http://fr/webroot/decision/view/report?op=fr_dialog&cmd=parameters_d&sessionID=a%20b");
    assert_eq!(parameters_form_body("{\"a\":1}", 5), "__parameters__=%7B%22a%22%3A1%7D&_=5");
    assert!(read_content_url("http://fr", 7, "sid", "c#1", 0).starts_with(
        "http://fr/webroot/decision/view/report?_=7&__boxModel__=true&op=fr_write&cmd=read_w_content&sessionID=sid&cid=c%231&reportIndex=0&browserWidth=1920"
    ));
    let p = filter_parameters("2026-05-01", "2026-05-03 12:00:00", "张三", "", "0");
    let path = |k: &str| vec![k.to_string()];
    assert_eq!(text_at_path(&p, &path("BEGIN_TIME")).as_deref(), Some("2026-05-01 00:00:00"));
    assert_eq!(text_at_path(&p, &path("END_TIME")).as_deref(), Some("2026-05-03 12:00:00"));
    assert_eq!(text_at_path(&p, &path("USER_STATUS")).as_deref(), Some("0"));
    match &p {
        Json::Object(fs) => {
            assert_eq!(fs.len(), 15);
            assert!(matches!(&fs[2].1, Json::Array(a) if a.len() == 1));
        }
        _ => panic!("expected an object"),
    }
    match filter_parameters("a", "b", "", "", "") {
        Json::Object(fs) => assert!(matches!(&fs[2].1, Json::Array(a) if a.is_empty())),
        _ => panic!("expected an object"),
    }
}
