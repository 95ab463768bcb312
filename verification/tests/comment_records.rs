use douyin_cli::comments::{chat_scores_fit, extract_aweme_id, format_chatml, normalize_comment, AwemeTarget, ChatmlOptions, CommentPager};
use douyin_cli::json::{parse_json, to_json_string, Json};

fn doc(text: &str) -> Json {
    parse_json(text).unwrap()
}

fn val(v: &Json) -> serde_json::Value {
    serde_json::from_str(&to_json_string(v)).unwrap()
}

fn id_of(target: &str) -> String {
    match extract_aweme_id(target).unwrap() {
        AwemeTarget::Id(id) => id,
        AwemeTarget::Redirect(url) => panic!("unexpected redirect to {url}"),
    }
}

#[test]
fn extracts_raw_and_url_aweme_ids() {
    assert_eq!(id_of("7380000000000000000"), "7380000000000000000");
    assert_eq!(id_of("https://www.douyin.com/video/7380000000000000000?x=1"), "7380000000000000000");
    assert_eq!(id_of("https://www.douyin.com/note/7380000000000000000"), "7380000000000000000");
}

#[test]
fn normalizes_comment_fields() {
    let value = val(&normalize_comment(&doc(
        r#"{"cid":"1","text":"你好","create_time":1710000000,"digg_count":3,"reply_comment_total":2,"ip_label":"上海",
            "user":{"uid":"u1","sec_uid":"sec","nickname":"用户","unique_id":"unique"}}"#,
    )));
    assert_eq!(value["id"], "1");
    assert_eq!(value["user"]["nickname"], "用户");
    assert_eq!(value["digg_count"], 3);
}

#[test]
fn chatml_pairs_comments_and_replies() {
    let options = ChatmlOptions {
        comment_role: "user".to_owned(),
        reply_role: "assistant".to_owned(),
        min_comment_digg: 0,
        min_reply_digg: 0,
        include_single_comments: false,
    };
    let records = format_chatml(
        &doc(
            r#"{"aweme_id":"7380000000000000000",
                "comments":[{"id":"c1","text":"这车能买吗？","digg_count":8,"user":{},"replies":[
                    {"id":"r1","text":"先查维保和事故。","digg_count":12,"user":{}}
                ]}]}"#,
        ),
        &options,
    );
    let first = val(&records[0]);
    assert_eq!(first["messages"][0]["role"], "user");
    assert_eq!(first["messages"][1]["content"], "先查维保和事故。");
    assert_eq!(first["metadata"]["quality_score"], 20);
}

#[test]
fn short_comment_links_are_followed_and_junk_refused() {
    assert!(matches!(extract_aweme_id("https://v.douyin.com/xyz/").unwrap(), AwemeTarget::Redirect(_)));
    assert!(extract_aweme_id("not a target").is_err());
}

#[test]
fn comment_pager_stops_at_its_limit() {
    let mut pager = CommentPager::new(2);
    assert!(pager.wants_page());
    let taken = pager.on_page(&doc(r#"{"comments":[{"cid":"1"},{"cid":"2"},{"cid":"3"}],"has_more":1,"cursor":3}"#));
    assert_eq!(taken.len(), 2);
    assert!(!pager.wants_page());
}

#[test]
fn like_sums_are_checked_only_for_pairs_that_make_records() {
    let options = ChatmlOptions {
        comment_role: "user".to_owned(),
        reply_role: "assistant".to_owned(),
        min_comment_digg: 0,
        min_reply_digg: 0,
        include_single_comments: false,
    };
    let overflowing = doc(
        r#"{"comments":[{"text":"a","digg_count":9223372036854775807,"replies":[{"text":"b","digg_count":1}]}]}"#,
    );
    assert!(!chat_scores_fit(&overflowing, &options));
    let filtered = doc(
        r#"{"comments":[{"text":"a","digg_count":9223372036854775807,"replies":[{"text":"  ","digg_count":1}]}]}"#,
    );
    assert!(chat_scores_fit(&filtered, &options));
    assert!(format_chatml(&filtered, &options).is_empty());
}
