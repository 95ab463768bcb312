use douyin_cli::json::{parse_json, to_json_string, Json};
use douyin_cli::mcp::{batch_answer, call_answer, handle_message, McpReply};

fn doc(text: &str) -> Json {
    parse_json(text).unwrap()
}

fn val(v: &Json) -> serde_json::Value {
    serde_json::from_str(&to_json_string(v)).unwrap()
}

fn answer(reply: McpReply) -> Option<Json> {
    match reply {
        McpReply::Silent => None,
        McpReply::Answer(json) => Some(json),
        McpReply::Call { id, .. } => Some(call_answer(id, Err("offline".to_owned()))),
        McpReply::Batch(replies) => batch_answer(replies.into_iter().map(answer).collect()),
    }
}

fn handle(text: &str) -> Option<serde_json::Value> {
    answer(handle_message(&doc(text), "1.0.0", &Err("no settings".to_owned()))).map(|j| val(&j))
}

#[test]
fn initialize_negotiates_supported_version() {
    let response = handle(
        r#"{"jsonrpc":"2.0", "id":1, "method":"initialize",
            "params":{"protocolVersion":"2025-11-25","capabilities":{},"clientInfo":{"name":"test","version":"1"}}}"#,
    )
    .unwrap();
    assert_eq!(response["result"]["protocolVersion"], "2025-11-25");
    assert_eq!(response["result"]["serverInfo"]["name"], "douyin");
}

#[test]
fn tools_list_exposes_openapi_and_offline_insights_tools() {
    let response = handle(r#"{"jsonrpc":"2.0","id":2,"method":"tools/list"}"#).unwrap();
    let names: Vec<_> = response["result"]["tools"]
        .as_array()
        .unwrap()
        .iter()
        .filter_map(|tool| tool["name"].as_str().map(str::to_owned))
        .collect();
    for expected in [
        "auth_status",
        "userinfo",
        "comment_list",
        "comment_replies",
        "comment_reply",
        "im_message_send",
        "openapi_request",
        "hot_words",
        "hot_memes",
        "demand_discovery",
    ] {
        assert!(names.contains(&expected.to_owned()));
    }
}

#[test]
fn offline_insights_tool_call_does_not_require_authorization() {
    let response = handle(
        r#"{"jsonrpc":"2.0","id":5,"method":"tools/call","params":{
            "name":"demand_discovery",
            "arguments":{"texts":["求链接","求链接"],"top":5,"min_count":2}}}"#,
    )
    .unwrap();
    assert_eq!(response["result"]["structuredContent"]["demands"][0]["text"], "求链接");
    assert_eq!(response["result"]["isError"], false);
}

#[test]
fn unknown_tool_is_protocol_error() {
    let response =
        handle(r#"{"jsonrpc":"2.0","id":3,"method":"tools/call","params":{"name":"missing","arguments":{}}}"#).unwrap();
    assert_eq!(response["error"]["code"], -32602);
}

#[test]
fn batch_omits_notification_responses() {
    let response = handle(
        r#"[{"jsonrpc":"2.0","method":"notifications/initialized"},{"jsonrpc":"2.0","id":4,"method":"ping"}]"#,
    )
    .unwrap();
    assert_eq!(response.as_array().unwrap().len(), 1);
    assert_eq!(response[0]["id"], 4);
}

#[test]
fn unknown_versions_and_methods_are_answered() {
    let response = handle(r#"{"id":7,"method":"initialize","params":{"protocolVersion":"1999-01-01"}}"#).unwrap();
    assert_eq!(response["result"]["protocolVersion"], "2025-11-25");
    assert_eq!(response["result"]["serverInfo"]["version"], "1.0.0");
    let missing = handle(r#"{"id":8,"method":"nope"}"#).unwrap();
    assert_eq!(missing["error"]["code"], -32601);
    assert_eq!(missing["error"]["message"], "Method not found: nope");
    let invalid = handle(r#"{"id":9}"#).unwrap();
    assert_eq!(invalid["error"]["code"], -32600);
    assert!(handle(r#"{"method":"ping"}"#).is_none());
    assert!(handle(r#"[{"method":"ping"}]"#).is_none());
}

#[test]
fn online_tools_report_missing_authorization() {
    let response =
        handle(r#"{"id":10,"method":"tools/call","params":{"name":"userinfo","arguments":{}}}"#).unwrap();
    assert_eq!(response["result"]["isError"], true);
    assert_eq!(response["result"]["content"][0]["text"], "no settings");
    let reply = handle_message(
        &doc(r#"{"id":11,"method":"tools/call","params":{"name":"userinfo","arguments":{"token":"t","open_id":"o"}}}"#),
        "1.0.0",
        &Ok(Vec::new()),
    );
    match reply {
        McpReply::Call { request, .. } => {
            assert_eq!(request.path, "/oauth/userinfo/");
            assert_eq!(request.token, Some("t".to_owned()));
        },
        _ => panic!("expected a platform request"),
    }
}

#[test]
fn offline_tools_refuse_bad_arguments_as_execution_errors() {
    for (arguments, fragment) in [
        (r#"{"texts":"not a list"}"#, "texts 必须是字符串数组"),
        (r#"{"texts":["a", 1]}"#, "texts 必须是字符串数组"),
        (r#"{"texts":["a"],"min_count":0}"#, "min_count"),
    ] {
        let request = format!(
            r#"{{"jsonrpc":"2.0","id":9,"method":"tools/call","params":{{"name":"hot_words","arguments":{arguments}}}}}"#
        );
        let response = handle(&request).unwrap();
        assert_eq!(response["result"]["isError"], true, "{arguments}");
        assert!(response.to_string().contains(fragment), "{arguments}");
    }
    let ok = handle(r#"{"jsonrpc":"2.0","id":10,"method":"tools/call","params":{"name":"hot_words","arguments":{"texts":["汽车 汽车"]}}}"#)
        .unwrap();
    assert_eq!(ok["result"]["structuredContent"]["input_count"], 1);
}
