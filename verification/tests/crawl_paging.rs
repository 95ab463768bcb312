use douyin_cli::crawler::CrawlType;
use douyin_cli::download::merge_incremental;
use douyin_cli::json::{parse_json, to_json_string, Json};
use douyin_cli::pages::PageCrawl;

fn doc(text: &str) -> Json {
    parse_json(text).unwrap()
}

fn ids(results: &[Json]) -> Vec<String> {
    results
        .iter()
        .map(|r| serde_json::from_str::<serde_json::Value>(&to_json_string(r)).unwrap()["id"].to_string())
        .collect()
}

#[test]
fn a_page_crawl_stops_at_its_limit() {
    let mut crawl = PageCrawl::new(CrawlType::Following, 2);
    assert!(crawl.wants_page());
    crawl.on_page(&doc(
        r#"{"followings":[{"uid":"1","nickname":"a"},{"uid":"2","nickname":"b"},{"uid":"3","nickname":"c"}],"has_more":true,"max_cursor":7}"#,
    ));
    assert_eq!(crawl.results.len(), 2);
    assert!(!crawl.has_more);
    assert!(!crawl.wants_page());
    assert_eq!(crawl.cursor, 7);
}

#[test]
fn an_empty_page_with_more_to_come_is_retried() {
    let mut crawl = PageCrawl::new(CrawlType::Following, 0);
    crawl.on_page(&doc(r#"{"followings":[],"has_more":1}"#));
    assert_eq!(crawl.retries, 1);
    assert!(crawl.wants_page());
    crawl.on_page(&doc(r#"{"followings":[],"has_more":0}"#));
    assert!(crawl.finished);
    assert!(!crawl.wants_page());
}

#[test]
fn each_page_resets_the_retry_count() {
    let mut crawl = PageCrawl::new(CrawlType::Following, 0);
    assert_eq!(crawl.on_failure("timeout".to_owned()), None);
    assert_eq!(crawl.on_failure("timeout".to_owned()), None);
    assert_eq!(crawl.retries, 2);
    for _ in 0..12 {
        crawl.on_page(&doc(r#"{"followings":[],"has_more":true}"#));
        assert_eq!(crawl.retries, 1);
        assert!(crawl.wants_page());
    }
    crawl.on_page(&doc(r#"{"followings":[{"uid":"1","nickname":"a"}],"has_more":true}"#));
    assert_eq!(crawl.retries, 0);
}

#[test]
fn failed_requests_are_retried_nine_times() {
    let mut crawl = PageCrawl::new(CrawlType::Post, 0);
    for attempt in 1..=9 {
        assert_eq!(crawl.on_failure("timeout".to_owned()), None);
        assert_eq!(crawl.retries, attempt);
    }
    assert_eq!(crawl.on_failure("timeout".to_owned()), Some("timeout".to_owned()));
}

#[test]
fn incremental_crawls_keep_new_works_before_saved_ones() {
    let mut results = vec![doc(r#"{"id":"3"}"#), doc(r#"{"id":"2","desc":"new"}"#)];
    merge_incremental(&mut results, vec![doc(r#"{"id":"2","desc":"old"}"#), doc(r#"{"id":"1"}"#)]);
    assert_eq!(ids(&results), vec![r#""3""#, r#""2""#, r#""1""#]);
    let kept = serde_json::from_str::<serde_json::Value>(&to_json_string(&results[1])).unwrap();
    assert_eq!(kept["desc"], "old");
}

#[test]
fn signed_queries_are_form_encoded() {
    let mut params = vec![("keyword".to_owned(), "抖音 a&b".to_owned())];
    douyin_cli::web::add_common_params(&mut params);
    assert_eq!(
        douyin_cli::web::encode_query(&params),
        "keyword=%E6%8A%96%E9%9F%B3+a%26b&device_platform=webapp&aid=6383&channel=channel_pc_web"
    );
}

#[test]
fn oauth_states_are_url_safe_base64_of_eighteen_bytes() {
    let state = douyin_cli::auth::random_state().unwrap();
    assert_eq!(state.len(), 24);
    assert!(state.chars().all(|c| c.is_ascii_alphanumeric() || c == '-' || c == '_'));
    assert_ne!(state, douyin_cli::auth::random_state().unwrap());
}
