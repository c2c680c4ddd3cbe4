use manhuaviewer::auth::{
    extract_query_token, host_allowed, is_lan_sensitive, origin_allowed, request_allowed,
    request_host_origin_ok, setting_key_writable, token_authorized, validate_outbound_url,
};

#[test]
fn configured_token_guards_everything_on_lan() {
    for p in [
        "/archives",
        "/archives/5/pages/2",
        "/history",
        "/opds",
        "/opds/catalog",
        "/settings",
    ] {
        assert!(!request_allowed("sec1", None, None, false), "GET {p}");
        assert!(request_allowed("sec1", Some("Bearer sec1"), None, false), "GET {p}");
        assert!(request_allowed("sec1", None, Some("sec1"), false), "GET {p}");
    }
    assert!(!request_allowed("sec1", None, None, false));
    assert!(request_allowed("sec1", Some("Bearer sec1"), None, false));
}

#[test]
fn loopback_always_allowed_even_with_token() {
    assert!(request_allowed("sec1", None, None, true));
    assert!(request_allowed("sec1", Some("wrong"), None, true));
}

#[test]
fn no_token_keeps_legacy_open_access() {
    assert!(request_allowed("", None, None, false));
    assert!(request_allowed("", None, None, false));
}

#[test]
fn token_scenarios() {
    assert!(token_authorized(None, None, ""));
    assert!(token_authorized(Some("anything"), Some("x"), ""));
    assert!(token_authorized(Some("Bearer sec1"), Some("bad"), "sec1"));
    assert!(token_authorized(Some("sec1"), None, "sec1"));
    assert!(token_authorized(None, Some("sec1"), "sec1"));
    assert!(!token_authorized(Some("Bearer sec1 "), None, "sec1"));
    assert!(!token_authorized(Some("Bearer wrong"), Some("other"), "sec1"));
}

#[test]
fn host_guard_allows_local_forms_rejects_rebind_domains() {
    assert!(host_allowed(Some("127.0.0.1:5002")));
    assert!(host_allowed(Some("127.0.0.1")));
    assert!(host_allowed(Some("192.168.1.5:5002")));
    assert!(host_allowed(Some("[::1]:5002")));
    assert!(host_allowed(Some("[fd00::1]")));
    assert!(host_allowed(Some("localhost:3000")));
    assert!(host_allowed(Some("LocalHost")));
    assert!(host_allowed(Some("tauri.localhost:5002")));
    assert!(host_allowed(Some("nas:5002")));
    assert!(host_allowed(Some("manga.local:5002")));
    assert!(host_allowed(None));

    assert!(!host_allowed(Some("evil.com:5002")));
    assert!(!host_allowed(Some("evil.com")));
    assert!(!host_allowed(Some("127.0.0.1.nip.io:5002")));
    assert!(!host_allowed(Some("localhost.evil.com")));
    assert!(!host_allowed(Some("evil:com")));
    assert!(!host_allowed(Some("")));
}

#[test]
fn origin_guard_allows_local_tauri_rejects_rebind() {
    assert!(origin_allowed(None));
    assert!(origin_allowed(Some("")));
    assert!(origin_allowed(Some("http://192.168.1.5:5002")));
    assert!(origin_allowed(Some("http://127.0.0.1:5002")));
    assert!(origin_allowed(Some("http://localhost:3000")));
    assert!(origin_allowed(Some("tauri://localhost")));
    assert!(origin_allowed(Some("http://tauri.localhost")));
    assert!(origin_allowed(Some("http://nas:5002")));

    assert!(!origin_allowed(Some("http://evil.com:5002")));
    assert!(!origin_allowed(Some("https://attacker.example")));
    assert!(!origin_allowed(Some("null")));
    assert!(!origin_allowed(Some("file://")));
    assert!(!origin_allowed(Some("chrome-extension://abcdefghijklmnop")));
    assert!(!origin_allowed(Some("evil.com")));
}

#[test]
fn request_host_origin_ok_combines_both_headers() {
    let ok = |host: &str, origin: Option<&str>| request_host_origin_ok(Some(host), origin);
    assert!(ok("127.0.0.1:5002", Some("tauri://localhost")));
    assert!(ok("192.168.1.5:5002", None));
    assert!(!ok("evil.com:5002", None));
    assert!(!ok("127.0.0.1:5002", Some("http://evil.com")));
}

#[test]
fn sensitive_settings_writable_only_from_loopback() {
    for key in ["server_token", "server_bind"] {
        assert!(setting_key_writable(key, true), "{key}");
        assert!(!setting_key_writable(key, false), "{key}");
    }
    assert!(setting_key_writable("page_mode", false));
    assert!(setting_key_writable("theme", true));
}

#[test]
fn lan_sensitive_keys_are_exactly_the_server_settings() {
    assert!(is_lan_sensitive("server_token"));
    assert!(is_lan_sensitive("server_bind"));
    assert!(!is_lan_sensitive("server"));
    assert!(!is_lan_sensitive("theme"));
}

#[test]
fn query_token_is_read_from_the_query_string() {
    assert_eq!(extract_query_token(Some("page=2&token=abc")), Some("abc".to_string()));
    assert_eq!(extract_query_token(Some("token=x")), Some("x".to_string()));
    assert_eq!(extract_query_token(Some("page=2")), None);
    assert_eq!(extract_query_token(None), None);
}

#[test]
fn outbound_urls_must_leave_this_machine() {
    assert!(validate_outbound_url("https://api.bgm.tv/search"));
    assert!(validate_outbound_url("http://192.168.1.2:5002"));
    assert!(!validate_outbound_url("http://127.0.0.1"));
    assert!(!validate_outbound_url("file:///etc/passwd"));
}

#[test]
fn origin_and_host_agree_on_the_host_part() {
    for h in ["nas:5002", "192.168.1.5:5002", "localhost", "example.com", "book.local", "[::1]:8080", ""] {
        for scheme in ["http", "https", "tauri"] {
            assert_eq!(origin_allowed(Some(&format!("{}://{}", scheme, h))), host_allowed(Some(h)), "{scheme}://{h}");
        }
    }
}
