use jarvis::fine_report::{
    untagged_to_plain_text,
    cached_auth_usable, decode_html_entities, decode_jwt_exp, effective_real_name,
    expiry_or_default, filter_time_bounds, fine_report_base, html_to_plain_text, is_login_page,
    jwt_payload, login_ok_message, CachedAuth,
};

fn check_entities() {
    assert_eq!(decode_html_entities("&#37096;&#38376;"), "部门");
    assert_eq!(decode_html_entities("a&amp;b"), "a&b");
    assert_eq!(decode_html_entities("&#x8F6F;&#x4EF6;"), "软件");
    assert_eq!(decode_html_entities("plain"), "plain");
}

#[test]
fn fine_report_decode_entities_chinese_and_ascii() {
    check_entities();
}

#[test]
fn html_parser_decode_entities_chinese_and_ascii() {
    check_entities();
}

#[test]
fn decode_entities_edge_cases() {
    assert_eq!(decode_html_entities("&bogus; &lt;b&gt;"), "&bogus; <b>");
    assert_eq!(decode_html_entities("&#xD800;"), "&#xD800;");
    assert_eq!(decode_html_entities("a & b"), "a & b");
    assert_eq!(decode_html_entities("&nbsp;&quot;&apos;"), " \"'");
    assert_eq!(decode_html_entities("&#99999999999;"), "&#99999999999;");
}

#[test]
fn html_to_plain_strips_rich() {
    assert_eq!(
        html_to_plain_text(r#"<p><span style="font-size: 13px;">完成页面改造</span></p>"#),
        "完成页面改造"
    );
    assert_eq!(
        html_to_plain_text(r#"新增自提运价卡控标准\r\n，甩挂记录"#),
        "新增自提运价卡控标准，甩挂记录"
    );
    assert_eq!(html_to_plain_text("纯文本内容"), "纯文本内容");
    assert_eq!(html_to_plain_text(""), "");
}

#[test]
fn html_to_plain_collapses_space() {
    assert_eq!(html_to_plain_text("  a \n\t b  "), "a b");
    assert_eq!(html_to_plain_text("a \\n b"), "a b");
    assert_eq!(html_to_plain_text("x < y"), "x < y");
}

#[test]
fn login_page_detection() {
    assert!(is_login_page("<a href=\"/webroot/Decision/Login\">"));
    assert!(!is_login_page("{\"html\":\"<table></table>\"}"));
}

#[test]
fn cached_auth_reuse_rules() {
    let auth = CachedAuth {
        account: "me".to_string(),
        base_url: "http://fr".to_string(),
        jwt: "j".to_string(),
        expires_at: 10_000,
        session_id: None,
    };
    assert!(cached_auth_usable(&auth, &"me".to_string(), &"http://fr".to_string(), 8_000));
    assert!(!cached_auth_usable(&auth, &"me".to_string(), &"http://fr".to_string(), 8_200));
    assert!(!cached_auth_usable(&auth, &"you".to_string(), &"http://fr".to_string(), 0));
}

#[test]
fn real_name_falls_back_to_configured_then_none() {
    assert_eq!(effective_real_name(&Some("  张三 ".to_string()), &"李四".to_string()), "张三");
    assert_eq!(effective_real_name(&Some("  ".to_string()), &"李四".to_string()), "李四");
    assert_eq!(effective_real_name(&None, &"李四".to_string()), "李四");
    // No name anywhere: the query runs without a name filter.
    assert_eq!(effective_real_name(&None, &String::new()), "");
    assert_eq!(effective_real_name(&Some(" ".to_string()), &String::new()), "");
}

#[test]
fn filter_bounds_get_times() {
    let (b, e) = filter_time_bounds("2026-05-01", "2026-05-31");
    assert_eq!(b, "2026-05-01 00:00:00");
    assert_eq!(e, "2026-05-31 23:59:59");
    let (b, e) = filter_time_bounds("2026-05-01 08:00:00", "2026-05-31 12:00:00");
    assert_eq!(b, "2026-05-01 08:00:00");
    assert_eq!(e, "2026-05-31 12:00:00");
}

#[test]
fn jwt_expiry_is_read_from_payload() {
    // payload {"exp":1700000000} in URL-safe base64 without padding
    let jwt = "eyJhbGciOiJIUzI1NiJ9.eyJleHAiOjE3MDAwMDAwMDB9.sig";
    assert_eq!(jwt_payload(jwt).unwrap(), "eyJleHAiOjE3MDAwMDAwMDB9");
    assert_eq!(decode_jwt_exp(jwt), Some(1_700_000_000));
    assert_eq!(decode_jwt_exp("a.b"), None);
    assert_eq!(decode_jwt_exp("a.b.c.d"), None);
    assert_eq!(decode_jwt_exp("a.!!!.c"), None);
    assert_eq!(expiry_or_default(None, 100), 100 + 14 * 86400 - 3600);
    assert_eq!(expiry_or_default(Some(5), 100), 5);
}

#[test]
fn login_message_reports_time_left() {
    assert_eq!(
        login_ok_message(100 + 2 * 86400 + 3 * 3600 + 59, 100),
        "登录成功。exp=183759, now=100, 剩 2 天 3 小时"
    );
    assert_eq!(login_ok_message(50, 100), "登录成功。exp=50, now=100, 剩 0 天 0 小时");
}

#[test]
fn fine_report_base_normalises() {
    assert_eq!(fine_report_base(" fr.example.com:8080/ ").unwrap(), "http://fr.example.com:8080");
    assert_eq!(fine_report_base("HTTPS://fr.example.com").unwrap(), "HTTPS://fr.example.com");
    assert!(fine_report_base("").is_err());
}

#[test]
fn untagged_text_cleanup() {
    assert_eq!(untagged_to_plain_text("  完成 \\n 页面\t改造  "), "完成 页面 改造");
    assert_eq!(untagged_to_plain_text("a\\r\\nb"), "ab");
    assert_eq!(untagged_to_plain_text(""), "");
}
