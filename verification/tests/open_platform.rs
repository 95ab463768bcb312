use douyin_cli::api::{message_content, parse_json as parse_json_arg, parse_key_values, ApiAction, ApiArgs, ApiCommand, AuthOptions, MessageType};
use douyin_cli::json::{parse_json, to_json_string, Json};
use douyin_cli::openapi::{body_excerpt, im_message_body, read_reply, OpenApiClient, RequestSpec};

fn doc(text: &str) -> Json {
    parse_json(text).unwrap()
}

fn val(v: &Json) -> serde_json::Value {
    serde_json::from_str(&to_json_string(v)).unwrap()
}

#[test]
fn text_message_requires_text() {
    match message_content(&MessageType::Text, None, None, None, None) {
        Err(e) => assert_eq!(e, "message-type=text 需要 --text"),
        Ok(_) => panic!("text is required"),
    }
    let content = message_content(&MessageType::Text, Some("你好".to_owned()), None, None, None).unwrap();
    assert_eq!(val(&content), serde_json::from_str::<serde_json::Value>(r#"{"text": "你好"}"#).unwrap());
}

#[test]
fn generic_request_parsers_reject_invalid_values() {
    assert!(parse_key_values(vec!["invalid".to_owned()]).is_err());
    assert!(parse_json_arg(Some("1".to_owned())).is_err());
    let pairs = parse_key_values(vec!["open_id=value".to_owned()]).unwrap().unwrap();
    assert_eq!(pairs, vec![("open_id".to_owned(), "value".to_owned())]);
}

#[test]
fn later_key_values_replace_earlier_ones() {
    let pairs = parse_key_values(vec!["a=1".to_owned(), "b=2".to_owned(), "a=3=4".to_owned()]).unwrap().unwrap();
    assert_eq!(pairs, vec![("a".to_owned(), "3=4".to_owned()), ("b".to_owned(), "2".to_owned())]);
    assert_eq!(parse_key_values(Vec::new()).unwrap(), None);
    assert_eq!(parse_key_values(vec!["=x".to_owned()]).unwrap_err(), "参数 key 不能为空: =x");
}

#[test]
fn authorize_url_encodes_values() {
    let client = OpenApiClient::new().unwrap();
    let url = client
        .authorize_url(
            "client",
            "https://example.com/callback",
            &vec!["user_info".to_owned(), "item.comment".to_owned()],
            Some("state value"),
        )
        .unwrap();
    assert!(url.starts_with("https://open.douyin.com/platform/oauth/connect/?"));
    assert!(url.contains("scope=user_info%2Citem.comment"));
    assert!(url.contains("redirect_uri=https%3A%2F%2Fexample.com%2Fcallback"));
    assert!(url.contains("state=state+value"));
}

#[test]
fn request_rejects_missing_token_before_network() {
    let client = OpenApiClient::new().unwrap();
    let mut spec = RequestSpec::new("GET", "/oauth/userinfo/");
    spec.auth_required = true;
    let error = client.request_url(&spec).unwrap_err();
    assert!(error.contains("access-token"));
}

#[test]
fn request_rejects_cross_origin_url_before_network() {
    let client = OpenApiClient::new().unwrap();
    let mut spec = RequestSpec::new("GET", "https://example.com/collect");
    spec.token = Some("secret-token".to_owned());
    spec.auth_required = true;
    let error = client.request_url(&spec).unwrap_err();
    assert!(error.contains("拒绝跨域"));
    assert!(!error.contains("secret-token"));
}

#[test]
fn validates_base_url_and_bounds_error_bodies() {
    assert!(OpenApiClient::with_base_url("file:///tmp/api").is_err());
    assert_eq!(body_excerpt("short"), "short");
    let excerpt = body_excerpt(&"界".repeat(2_001));
    assert!(excerpt.ends_with("…（响应已截断）"));
    assert_eq!(excerpt.chars().count(), 2_008);
}

#[test]
fn im_body_serializes_content_as_compact_json_string() {
    let body = im_message_body("user", "text", &doc(r#"{"text": "你好"}"#), None, Some("client-msg"));
    let body = val(&body);
    assert_eq!(body["content"], "{\"text\":\"你好\"}");
    assert_eq!(body["client_msg_id"], "client-msg");
}

#[test]
fn same_origin_paths_resolve_against_the_base() {
    let client = OpenApiClient::new().unwrap();
    assert_eq!(client.url("/oauth/userinfo/").unwrap(), "https://open.douyin.com/oauth/userinfo/");
    let mut spec = RequestSpec::new("GET", "/oauth/userinfo/");
    spec.token = Some("t".to_owned());
    spec.auth_required = true;
    assert_eq!(client.request_url(&spec).unwrap(), "https://open.douyin.com/oauth/userinfo/");
    spec.method = "BAD METHOD".to_owned();
    assert!(client.request_url(&spec).unwrap_err().starts_with("HTTP method 无效"));
}

#[test]
fn replies_must_be_successful_json_objects() {
    assert!(read_reply(true, "200 OK", r#"{"data":{}}"#).is_ok());
    assert_eq!(read_reply(true, "200 OK", "[1]").err().unwrap(), "OpenAPI 响应不是 JSON object");
    assert_eq!(read_reply(true, "200 OK", "oops").err().unwrap(), "OpenAPI 响应不是 JSON: oops");
    assert_eq!(read_reply(false, "500 Internal Server Error", "x").err().unwrap(), "OpenAPI HTTP 请求失败: 500 Internal Server Error x");
}

#[test]
fn comment_reply_asks_before_sending() {
    let client = OpenApiClient::new().unwrap();
    let saved = Ok(vec![
        ("accessToken".to_owned(), Json::Str("token".to_owned())),
        ("openId".to_owned(), Json::Str("open".to_owned())),
    ]);
    let args = ApiArgs {
        command: ApiCommand::CommentReply {
            auth: AuthOptions { token: None, open_id: None },
            item_id: "item".to_owned(),
            comment_id: None,
            content: "谢谢".to_owned(),
            yes: false,
        },
    };
    match args.plan(&client, &saved) {
        Ok(ApiAction::Send { confirm, request }) => {
            assert!(confirm.is_some());
            assert_eq!(request.path, "/item/comment/reply/");
            assert_eq!(request.token, Some("token".to_owned()));
            assert_eq!(request.params, Some(vec![("open_id".to_owned(), "open".to_owned())]));
            assert_eq!(val(request.json_body.as_ref().unwrap())["content"], "谢谢");
        },
        _ => panic!("expected a request"),
    }
    let anonymous = ApiArgs { command: ApiCommand::Userinfo(AuthOptions { token: None, open_id: None }) };
    match anonymous.plan(&client, &Ok(Vec::new())) {
        Err(e) => assert_eq!(e, "缺少 access_token，请先运行 douyin auth login"),
        Ok(_) => panic!("a saved token is needed"),
    }
}

#[test]
fn only_y_or_yes_agrees_to_a_write() {
    for answer in ["y\n", " YES ", "Yes", "y"] {
        assert!(douyin_cli::api::confirms(answer), "{answer:?}");
    }
    for answer in ["", "n", "yeah", "y e s", "\n"] {
        assert!(!douyin_cli::api::confirms(answer), "{answer:?}");
    }
}
