use jarvis::credentials::{base_from_parts, connection_precheck, normalize_base_url};

#[test]
fn normalize_base_url_strips_php_entry() {
    assert_eq!(normalize_base_url("http://example.com/zentao/index.php"), "http://example.com/zentao");
}

#[test]
fn normalize_base_url_preserves_path_segments() {
    assert_eq!(normalize_base_url("http://example.com/zentao"), "http://example.com/zentao");
}

#[test]
fn normalize_base_url_strips_trailing_slash() {
    assert_eq!(normalize_base_url("http://example.com/zentao/"), "http://example.com/zentao");
}

#[test]
fn normalize_base_url_adds_scheme_if_missing() {
    assert_eq!(normalize_base_url("example.com/zentao"), "http://example.com/zentao");
}

#[test]
fn normalize_base_url_preserves_https() {
    assert_eq!(normalize_base_url("https://example.com/zentao"), "https://example.com/zentao");
}

#[test]
fn normalize_base_url_preserves_custom_port() {
    assert_eq!(normalize_base_url("http://example.com:9538/zentao"), "http://example.com:9538/zentao");
}

#[test]
fn normalize_base_url_strips_html_entry() {
    assert_eq!(normalize_base_url("http://example.com/zentao/index.html"), "http://example.com/zentao");
}

#[test]
fn normalize_base_url_strips_json_entry() {
    assert_eq!(normalize_base_url("http://example.com/api/data.json"), "http://example.com/api");
}

#[test]
fn normalize_base_url_empty_input() {
    assert_eq!(normalize_base_url(""), "");
    assert_eq!(normalize_base_url("   "), "");
}

#[test]
fn normalize_base_url_bare_host() {
    assert_eq!(normalize_base_url("http://example.com"), "http://example.com");
}

#[test]
fn normalize_base_url_more_cases() {
    // Upper-case scheme is recognised; the parser lower-cases it.
    assert_eq!(normalize_base_url("  HTTPS://Example.com/a/b/Index.PHP/x  "), "https://example.com/a/b");
    // The default port is dropped.
    assert_eq!(normalize_base_url("http://example.com:80/zentao"), "http://example.com/zentao");
    // Not a URL even with a scheme added: the trimmed input stays.
    assert_eq!(normalize_base_url(" http://exa mple.com "), "http://exa mple.com");
}

#[test]
fn base_from_parts_rebuilds() {
    let parts = Some(("https".to_string(), Some("h.example".to_string()), Some(8443u16), "/a//b/x.aspx/c".to_string()));
    assert_eq!(base_from_parts("ignored", parts), "https://h.example:8443/a/b");
    assert_eq!(base_from_parts("raw text", None), "raw text");
}

#[test]
fn connection_precheck_messages() {
    let r = connection_precheck("", "me").unwrap();
    assert!(!r.ok);
    assert_eq!(r.message, "禅道地址不能为空");
    let r = connection_precheck("http://x", "  ").unwrap();
    assert_eq!(r.message, "账号不能为空");
    assert!(connection_precheck("http://x", "me").is_none());
}
