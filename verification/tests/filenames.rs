use douyin_cli::crawler::{extract_escaped_value, parse_aweme, parse_user, sanitize_filename, CrawlType};
use douyin_cli::download::{item_filename, sort_by_id_desc};
use douyin_cli::json::{parse_json, to_json_string, Json};
use douyin_cli::target::{Target, TargetPlan};

fn doc(text: &str) -> Json {
    parse_json(text).unwrap()
}

fn val(v: &Json) -> serde_json::Value {
    serde_json::from_str(&to_json_string(v)).unwrap()
}

#[test]
fn parses_video_and_image_awemes() {
    let video = parse_aweme(
        &doc(r#"{
            "aweme_type":4,"aweme_id":"1","create_time":10,"desc":"标题",
            "statistics":{"digg_count":2},"video":{"play_addr":{"url_list":["https://video"]},"duration":12000},
            "author":{"nickname":"作者","sec_uid":"sec","avatar_thumb":{"url_list":["https://avatar"]}}
        }"#),
        CrawlType::Post,
    )
    .unwrap();
    let video = val(&video);
    assert_eq!(video["download_addr"], "https://video");
    assert_eq!(video["author_nickname"], "作者");
    let image = parse_aweme(
        &doc(r#"{"aweme_type":68,"aweme_id":"2","desc":"图集","images":[{"url_list":["https://image"]}]}"#),
        CrawlType::Aweme,
    )
    .unwrap();
    assert_eq!(val(&image)["download_addr"][0], "https://image");
}

#[test]
fn parses_user_and_filename() {
    let user = parse_user(&doc(
        r#"{"nickname":"用户","signature":"签名","avatar_thumb":{"url_list":["https://avatar"]},"sec_uid":"sec"}"#,
    ));
    assert_eq!(val(&user)["sec_uid"], "sec");
    let item = doc(r#"{"id":"1","desc":"标题","author_nickname":"作者","duration":65000,"type":4}"#);
    assert_eq!(
        item_filename(&item, CrawlType::Post, &vec!["id".to_owned(), "title".to_owned()], "_"),
        "1_标题"
    );
}

#[test]
fn sanitizes_cross_platform_filenames_by_utf8_bytes() {
    assert_eq!(sanitize_filename(" a:/b*? ", 100), "ab");
    assert!(sanitize_filename("很长的中文标题", 10).len() <= 10);
}

#[test]
fn target_auto_detects_and_decodes_search_urls() {
    let plan = Target::parse("https://www.douyin.com/search/%E4%BA%8C%E6%89%8B%E8%BD%A6", CrawlType::Post).unwrap();
    match plan {
        TargetPlan::Ready(target) => {
            assert_eq!(target.kind, CrawlType::Search);
            assert_eq!(target.id, "二手车");
        },
        _ => panic!("expected a ready target"),
    }
}

#[test]
fn escaped_value_falls_back_to_plain_json() {
    assert_eq!(
        extract_escaped_value(r#"<script>{"nickname":"测试用户"}</script>"#, "nickname"),
        Some("测试用户".to_owned())
    );
    assert_eq!(extract_escaped_value(r#"nickname\":\"转义用户\""#, "nickname"), Some("转义用户".to_owned()));
}

#[test]
fn sanitized_name_is_untitled_when_nothing_is_left() {
    assert_eq!(sanitize_filename(" :/*? ", 100), "无标题");
    let cut = sanitize_filename("abcdefghij", 8);
    assert_eq!(cut, "abcde...");
}

#[test]
fn short_links_are_followed_first() {
    match Target::parse("https://v.douyin.com/abc/", CrawlType::Post).unwrap() {
        TargetPlan::Redirect(url) => assert_eq!(url, "https://v.douyin.com/abc/"),
        _ => panic!("expected a redirect"),
    }
    assert!(matches!(Target::parse("", CrawlType::Post).unwrap(), TargetPlan::OwnAccount));
    assert!(Target::parse("https://example.com/user/x", CrawlType::Post).is_err());
}

#[test]
fn results_sort_newest_id_first() {
    let mut results = vec![doc(r#"{"id":"1"}"#), doc(r#"{"id":"3"}"#), doc(r#"{"id":"2"}"#)];
    sort_by_id_desc(&mut results);
    let ids: Vec<_> = results.iter().map(|r| val(r)["id"].as_str().unwrap().to_owned()).collect();
    assert_eq!(ids, vec!["3", "2", "1"]);
}

#[test]
fn sanitizing_twice_changes_nothing() {
    for (text, max) in [
        ("  a<b>:c  d\t\te ", 200),
        ("一个很长的标题 需要 被截断 的 文件名", 20),
        ("abc defgh", 7),
        ("", 2),
        ("标题", 2),
        ("ab   cd", 0),
    ] {
        let once = sanitize_filename(text, max);
        assert_eq!(sanitize_filename(&once, max), once, "{text:?} {max}");
    }
}
