use douyin_cli::auth::{
    extract_token_fields, handle_callback, html_response, missing_client_key, plan_login, qr_lines, render_qr,
    status_report, LoginOptions,
};
use douyin_cli::json::{parse_json, to_json_string, Json};

fn doc(text: &str) -> Json {
    parse_json(text).unwrap()
}

fn obj(pairs: Vec<(String, Json)>) -> serde_json::Value {
    serde_json::from_str(&to_json_string(&Json::Obj(pairs))).unwrap()
}

fn options() -> LoginOptions {
    LoginOptions {
        client_key: Some("key".to_owned()),
        client_secret: None,
        redirect_uri: None,
        scopes: Vec::new(),
        code: None,
        show_qr: true,
        listen: true,
        callback_host: "127.0.0.1".to_owned(),
        callback_port: 8787,
        timeout: 300,
    }
}

#[test]
fn extracts_nested_token_fields() {
    let fields = extract_token_fields(&doc(
        r#"{"data": {"access_token": "access", "refresh_token": "refresh", "open_id": "open", "expires_in": 1}}"#,
    ));
    let fields = obj(fields);
    assert_eq!(fields["accessToken"], "access");
    assert_eq!(fields["openId"], "open");
}

#[test]
fn missing_key_message_explains_cookie_alternative() {
    let message = missing_client_key(true);
    assert!(message.contains("官方 OpenAPI OAuth 授权"));
    assert!(message.contains("--qr 只会把官方 OAuth 授权链接渲染成二维码"));
    assert!(message.contains("douyin auth cookie-login --cookie"));
    assert!(!missing_client_key(false).contains("--qr"));
}

#[test]
fn listening_login_uses_local_callback_and_default_scope() {
    let plan = plan_login(&options(), &Ok(Vec::new())).unwrap();
    assert_eq!(plan.redirect_uri, "http://127.0.0.1:8787/callback");
    assert_eq!(plan.scopes, vec!["user_info".to_owned()]);
    assert!(plan.needs_state);
    let mut without_key = options();
    without_key.client_key = None;
    match plan_login(&without_key, &Ok(Vec::new())) {
        Err(message) => assert!(message.contains("client_key")),
        Ok(_) => panic!("a login without a client key must fail"),
    }
}

#[test]
fn callback_accepts_only_the_expected_state() {
    let ok = handle_callback("GET /callback?code=abc&state=s1 HTTP/1.1\r\nHost: x\r\n", Some("s1"));
    assert_eq!(ok.result, Ok("abc".to_owned()));
    assert_eq!(ok.page.unwrap().0, 200);
    let wrong = handle_callback("GET /callback?code=abc&state=s2 HTTP/1.1\r\n", Some("s1"));
    assert_eq!(wrong.result, Err("授权回调 state 不匹配，已拒绝".to_owned()));
    let path = handle_callback("GET /other?code=abc HTTP/1.1\r\n", None);
    assert_eq!(path.page.unwrap().0, 404);
    let denied = handle_callback("GET /callback?error=access_denied HTTP/1.1\r\n", None);
    assert_eq!(denied.result, Err("授权失败: access_denied".to_owned()));
    let empty = handle_callback("", None);
    assert_eq!(empty.result, Err("授权回调请求无效".to_owned()));
    assert!(empty.page.is_none());
}

#[test]
fn html_response_counts_utf8_bytes() {
    let response = html_response(200, "好");
    let content = "<!doctype html><meta charset='utf-8'><title>Douyin CLI</title><p>好</p>";
    assert!(response.starts_with("HTTP/1.1 200 OK\r\n"));
    assert!(response.contains(&format!("Content-Length: {}\r\n", content.len())));
    assert!(response.ends_with(content));
    assert!(html_response(404, "x").starts_with("HTTP/1.1 404 Bad Request\r\n"));
}

#[test]
fn qr_rows_pair_up_into_half_blocks() {
    let dark = vec![true, false, false, true];
    assert_eq!(qr_lines(2, &dark), vec!["▀▄".to_owned()]);
    let dark3 = vec![true, true, true, false, false, false, true, false, true];
    assert_eq!(qr_lines(3, &dark3), vec!["▀▀▀".to_owned(), "▀ ▀".to_owned()]);
    let lines = render_qr("https://open.douyin.com/").unwrap();
    assert!(lines.len() > 5);
}

#[test]
fn status_report_reflects_saved_authorization() {
    let saved = vec![
        ("accessToken".to_owned(), Json::Str("t".to_owned())),
        ("openId".to_owned(), Json::Str("o".to_owned())),
    ];
    let report: serde_json::Value =
        serde_json::from_str(&to_json_string(&status_report(&saved, "/tmp/settings.json"))).unwrap();
    assert_eq!(report["authorized"], true);
    assert_eq!(report["connected"], false);
    assert_eq!(report["openId"], "o");
    assert_eq!(report["scopes"], serde_json::Value::Array(Vec::new()));
}
