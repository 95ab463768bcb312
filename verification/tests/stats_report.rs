use serde_json::Value;

use douyin_cli::json::{parse_json, Json};
use douyin_cli::stats::{
    author_stats, bucket_interactions, coverage, escape_markdown, median_parts, metric_maxima, min_max,
    render_markdown, saturated_sum, score_items, select_items, sort_items, topic_stats, values_of, wide_sum, Item,
    Maxima, ScoredItem, SortMetric,
};

// The report as the command assembles it: the library selects, scores in
// hundredths, sorts and groups; the floating-point figures are added here.

fn score_centi(item: &Item, maxima: &Maxima) -> u64 {
    let norm = |value: Option<u64>, maximum: u64| {
        if maximum == 0 { 0.0 } else { (value.unwrap_or(0) as f64).ln_1p() / (maximum as f64).ln_1p() }
    };
    let weighted = 0.35 * norm(item.likes, maxima.likes)
        + 0.20 * norm(item.comments, maxima.comments)
        + 0.20 * norm(item.collects, maxima.collects)
        + 0.25 * norm(item.shares, maxima.shares);
    let score = (((weighted * 100.0) * 100.0).round() / 100.0).clamp(0.0, 100.0);
    (score * 100.0).round() as u64
}

fn average(values: &Vec<u64>) -> f64 {
    average_wide(wide_sum(values), values.len())
}

fn average_wide(total: u128, count: usize) -> f64 {
    if count == 0 { 0.0 } else { ((total as f64 / count as f64) * 100.0).round() / 100.0 }
}

fn median(values: &Vec<u64>) -> f64 {
    match median_parts(values) {
        None => 0.0,
        Some((low, high)) => (low as f64 + high as f64) / 2.0,
    }
}

fn obj(pairs: Vec<(&str, Value)>) -> Value {
    Value::Object(pairs.into_iter().map(|(key, value)| (key.to_owned(), value)).collect())
}

fn opt(value: Option<u64>) -> Value {
    value.map(Value::from).unwrap_or(Value::Null)
}

fn metric_summary(values: &Vec<u64>) -> Value {
    if values.is_empty() {
        return obj(vec![("total", Value::Null), ("average", Value::Null), ("median", Value::Null)]);
    }
    obj(vec![
        ("total", Value::from(saturated_sum(values))),
        ("average", Value::from(average(values))),
        ("median", Value::from(median(values))),
    ])
}

fn range_summary(values: &Vec<u64>) -> Value {
    match min_max(values) {
        None => obj(vec![("average", Value::Null), ("median", Value::Null), ("min", Value::Null), ("max", Value::Null)]),
        Some((min, max)) => obj(vec![
            ("average", Value::from(average(values))),
            ("median", Value::from(median(values))),
            ("min", Value::from(min)),
            ("max", Value::from(max)),
        ]),
    }
}

fn analyze_json(input: &str, author: Option<&str>, sort: SortMetric, top: usize) -> Result<Value, String> {
    let selection = select_items(input, author)?;
    let maxima = metric_maxima(&selection.items);
    let centis: Vec<u64> = selection.items.iter().map(|item| score_centi(item, &maxima)).collect();
    let scored = sort_items(score_items(selection.items, &centis), sort);
    let published = min_max(&values_of(&scored, 5));
    let bucket = |b: u8| {
        let values = bucket_interactions(&scored, b);
        obj(vec![("count", Value::from(values.len())), ("average_interactions", Value::from(average(&values)))])
    };
    let coverage_of = |m: u8| Value::from(coverage(&scored, m));
    let authors: Vec<Value> = author_stats(&scored)
        .into_iter()
        .map(|g| {
            obj(vec![
                ("author_nickname", Value::from(g.nickname)),
                ("author_uid", Value::from(g.uid)),
                ("count", Value::from(g.totals.count)),
                ("total_likes", Value::from(g.totals.likes)),
                ("total_comments", Value::from(g.totals.comments)),
                ("total_collects", Value::from(g.totals.collects)),
                ("total_shares", Value::from(g.totals.shares)),
                ("total_interactions", Value::from(g.totals.interactions)),
                ("average_interactions", Value::from(average_wide(g.totals.interactions_sum, g.totals.count as usize))),
            ])
        })
        .collect();
    let topics: Vec<Value> = topic_stats(&scored)
        .into_iter()
        .map(|t| {
            obj(vec![
                ("tag_name", Value::from(t.tag_name)),
                ("count", Value::from(t.count)),
                ("total_interactions", Value::from(t.total_interactions)),
            ])
        })
        .collect();
    let top_items: Vec<Value> = scored
        .iter()
        .take(top)
        .enumerate()
        .map(|(i, s): (usize, &ScoredItem)| {
            obj(vec![
                ("rank", Value::from(i + 1)),
                ("id", Value::from(s.item.id.clone())),
                ("desc", Value::from(s.item.desc.clone())),
                ("author_nickname", Value::from(s.item.author_nickname.clone())),
                ("author_uid", Value::from(s.item.author_uid.clone())),
                ("likes", opt(s.item.likes)),
                ("comments", opt(s.item.comments)),
                ("collects", opt(s.item.collects)),
                ("shares", opt(s.item.shares)),
                ("interactions", Value::from(s.interactions)),
                ("score", Value::from(s.score_centi as f64 / 100.0)),
                ("duration_ms", opt(s.item.duration_ms)),
                ("publish_time", opt(s.item.publish_time)),
            ])
        })
        .collect();
    Ok(obj(vec![
        ("input_count", Value::from(selection.input_count)),
        ("matched_count", Value::from(scored.len())),
        ("filter", obj(vec![("author", author.map(Value::from).unwrap_or(Value::Null))])),
        ("sort", Value::from(sort.as_str())),
        (
            "metric_coverage",
            obj(vec![
                ("likes", coverage_of(0)),
                ("comments", coverage_of(1)),
                ("collects", coverage_of(2)),
                ("shares", coverage_of(3)),
                ("duration_ms", coverage_of(4)),
                ("published_time", coverage_of(5)),
            ]),
        ),
        (
            "summary",
            obj(vec![
                ("likes", metric_summary(&values_of(&scored, 0))),
                ("comments", metric_summary(&values_of(&scored, 1))),
                ("collects", metric_summary(&values_of(&scored, 2))),
                ("shares", metric_summary(&values_of(&scored, 3))),
                ("interactions", metric_summary(&values_of(&scored, 6))),
                ("duration_ms", range_summary(&values_of(&scored, 4))),
                (
                    "published_time",
                    obj(vec![("earliest", opt(published.map(|p| p.0))), ("latest", opt(published.map(|p| p.1)))]),
                ),
            ]),
        ),
        ("duration_buckets", obj(vec![("under_60s", bucket(0)), ("60_to_300s", bucket(1)), ("over_300s", bucket(2))])),
        ("authors", Value::Array(authors)),
        ("topics", Value::Array(topics)),
        ("top_items", Value::Array(top_items)),
        (
            "limitations",
            Value::from("仅统计采集元数据；不分析媒体画面、声音、Hook、镜头、字幕。缺少播放量，因此 score 不是互动率。"),
        ),
    ]))
}

fn analyze(input: &str, author: Option<&str>, sort: SortMetric) -> Value {
    analyze_json(input, author, sort, 20).unwrap()
}

fn markdown(result: &Value) -> String {
    let doc: Json = parse_json(&result.to_string()).unwrap();
    render_markdown(&doc)
}

#[test]
fn parses_flat_schema_and_camel_case_aliases() {
    let result = analyze(
        r#"[
            {"id":"1","desc":"snake","author_nickname":"甲","author_uid":"u1","digg_count":1,"comment_count":2,"collect_count":3,"share_count":4,"duration":5000,"time":10},
            {"aweme_id":"2","desc":"camel","authorNickname":"乙","authorUid":"u2","diggCount":"5","commentCount":"6","collectCount":"7","shareCount":"8","duration":"9000","createTime":"20"},
            {"awemeId":"3","time":5}
        ]"#,
        None,
        SortMetric::Latest,
    );
    assert_eq!(result["input_count"], 3);
    assert_eq!(result["top_items"][0]["id"], "2");
    assert_eq!(result["top_items"][0]["interactions"], 26);
}

#[test]
fn author_filter_is_exact() {
    let result = analyze(
        r#"[{"id":"1","author_nickname":"陈震同学"},{"id":"2","author_nickname":"陈震"}]"#,
        Some("陈震同学"),
        SortMetric::Score,
    );
    assert_eq!(result["matched_count"], 1);
    assert_eq!(result["top_items"][0]["id"], "1");
}

#[test]
fn all_sort_metrics_select_expected_primary_value() {
    let input = r#"[
        {"id":"a","digg_count":9,"comment_count":1,"collect_count":1,"share_count":1,"duration":10,"time":10},
        {"id":"b","digg_count":1,"comment_count":9,"collect_count":2,"share_count":2,"duration":30,"time":30},
        {"id":"c","digg_count":2,"comment_count":2,"collect_count":9,"share_count":9,"duration":20,"time":20}
    ]"#;
    let expectations = [
        (SortMetric::Interactions, "c"),
        (SortMetric::Likes, "a"),
        (SortMetric::Comments, "b"),
        (SortMetric::Collects, "c"),
        (SortMetric::Shares, "c"),
        (SortMetric::Duration, "b"),
        (SortMetric::Latest, "b"),
    ];
    for (sort, expected) in expectations {
        let result = analyze(input, None, sort);
        assert_eq!(result["top_items"][0]["id"], expected);
    }
    let score = analyze(input, None, SortMetric::Score);
    assert_eq!(score["top_items"][0]["id"], "c");
}

#[test]
fn stable_ties_use_interactions_then_id() {
    let result = analyze(
        r#"[
            {"id":"b","digg_count":5,"comment_count":5,"duration":10},
            {"id":"a","digg_count":5,"comment_count":5,"duration":10},
            {"id":"c","digg_count":4,"comment_count":4,"duration":10}
        ]"#,
        None,
        SortMetric::Duration,
    );
    assert_eq!(
        result["top_items"].as_array().unwrap().iter().map(|item| item["id"].as_str().unwrap()).collect::<Vec<_>>(),
        vec!["a", "b", "c"]
    );
}

#[test]
fn score_is_one_hundred_for_all_maxima_and_zero_for_all_zero() {
    let maximum = analyze(
        r#"[{"id":"max","digg_count":10,"comment_count":10,"collect_count":10,"share_count":10}]"#,
        None,
        SortMetric::Score,
    );
    let zero = analyze(
        r#"[{"id":"zero","digg_count":0,"comment_count":0,"collect_count":0,"share_count":0}]"#,
        None,
        SortMetric::Score,
    );
    assert_eq!(maximum["top_items"][0]["score"], 100.0);
    assert_eq!(zero["top_items"][0]["score"], 0.0);
}

#[test]
fn score_formula_applies_declared_weights() {
    let result = analyze(
        r#"[
            {"id":"likes","digg_count":10},
            {"id":"comments","comment_count":10},
            {"id":"collects","collect_count":10},
            {"id":"shares","share_count":10}
        ]"#,
        None,
        SortMetric::Score,
    );
    assert_eq!(result["top_items"][0]["score"], 35.0);
    assert_eq!(result["top_items"][1]["score"], 25.0);
    assert_eq!(result["top_items"][2]["score"], 20.0);
    assert_eq!(result["top_items"][3]["score"], 20.0);
}

#[test]
fn median_handles_even_and_odd_inputs() {
    assert_eq!(median(&vec![9, 1, 5]), 5.0);
    assert_eq!(median(&vec![10, 2, 6, 4]), 5.0);
}

#[test]
fn duration_bucket_boundaries_are_exact() {
    let result = analyze(
        r#"[
            {"id":"short","duration":59999},
            {"id":"medium","duration":60000},
            {"id":"long","duration":300000}
        ]"#,
        None,
        SortMetric::Duration,
    );
    assert_eq!(result["duration_buckets"]["under_60s"]["count"], 1);
    assert_eq!(result["duration_buckets"]["60_to_300s"]["count"], 1);
    assert_eq!(result["duration_buckets"]["over_300s"]["count"], 1);
}

#[test]
fn missing_strings_and_negative_numbers_are_safe() {
    let result = analyze(
        r#"[
            {"id":"1","digg_count":"12","comment_count":-1,"collect_count":"bad","share_count":null},
            {"id":"2","digg_count":3}
        ]"#,
        None,
        SortMetric::Likes,
    );
    assert_eq!(result["metric_coverage"]["likes"], 2);
    assert_eq!(result["metric_coverage"]["comments"], 0);
    assert_eq!(result["top_items"][0]["interactions"], 12);
}

#[test]
fn interactions_and_totals_saturate_on_overflow() {
    let result = analyze(
        r#"[{"id":"1","digg_count":"18446744073709551615","comment_count":"18446744073709551615","collect_count":1,"share_count":1}]"#,
        None,
        SortMetric::Interactions,
    );
    assert_eq!(result["top_items"][0]["interactions"], Value::from(u64::MAX));
    assert_eq!(result["summary"]["interactions"]["total"], Value::from(u64::MAX));
}

#[test]
fn averages_do_not_use_saturated_totals() {
    let result = analyze(
        r#"[
            {"id":"1","author_nickname":"甲","author_uid":"u1","digg_count":"18446744073709551615","duration":1000},
            {"id":"2","author_nickname":"甲","author_uid":"u1","digg_count":"18446744073709551615","duration":1000}
        ]"#,
        None,
        SortMetric::Interactions,
    );
    let expected = u64::MAX as f64;
    assert_eq!(result["summary"]["likes"]["average"].as_f64().unwrap(), expected);
    assert_eq!(result["authors"][0]["average_interactions"].as_f64().unwrap(), expected);
    assert_eq!(result["duration_buckets"]["under_60s"]["average_interactions"].as_f64().unwrap(), expected);
}

#[test]
fn missing_metrics_are_null_but_derived_interactions_are_zero() {
    let result = analyze(r#"[{"id":"1"}]"#, None, SortMetric::Score);
    for field in ["total", "average", "median"] {
        assert!(result["summary"]["likes"][field].is_null());
    }
    for field in ["average", "median", "min", "max"] {
        assert!(result["summary"]["duration_ms"][field].is_null());
    }
    assert_eq!(result["summary"]["interactions"]["total"], 0);
    assert_eq!(result["summary"]["interactions"]["average"], 0.0);
    assert_eq!(result["summary"]["interactions"]["median"], 0.0);

    let markdown = markdown(&result);
    assert!(markdown.contains("| 点赞 | 无 | 无 | 无 |"));
    assert!(markdown.contains("时长（毫秒）：平均 无，中位数 无，最小 无，最大 无。"));
    assert!(!markdown.contains("null"));
}

#[test]
fn authors_and_topics_have_totals_and_deterministic_order() {
    let result = analyze(
        r#"[
            {"id":"1","author_nickname":"甲","digg_count":10,"text_extra":[{"tag_name":"汽车"},{"tag_name":"汽车"}]},
            {"id":"2","author_nickname":"乙","digg_count":5,"text_extra":[{"tag_name":"旅行"}]},
            {"id":"3","author_nickname":"甲","digg_count":1,"text_extra":[{"tag_name":"旅行"}]}
        ]"#,
        None,
        SortMetric::Score,
    );
    assert_eq!(result["authors"][0]["author_nickname"], "甲");
    assert_eq!(result["authors"][0]["count"], 2);
    assert_eq!(result["topics"][0]["tag_name"], "旅行");
    assert_eq!(result["topics"][0]["count"], 2);
}

#[test]
fn authors_are_grouped_by_nickname_and_uid() {
    let result = analyze(
        r#"[
            {"id":"1","author_nickname":"同名","author_uid":"u1","digg_count":2},
            {"id":"2","author_nickname":"同名","author_uid":"u2","digg_count":1}
        ]"#,
        None,
        SortMetric::Interactions,
    );
    assert_eq!(result["authors"].as_array().unwrap().len(), 2);
    assert_eq!(result["authors"][0]["author_uid"], "u1");
    assert_eq!(result["authors"][1]["author_uid"], "u2");
}

#[test]
fn nested_arrays_and_single_objects_are_supported() {
    for input in [
        r#"{"items":[{"id":"1"}]}"#,
        r#"{"aweme_list":[{"id":"1"}]}"#,
        r#"{"data":[{"id":"1"}]}"#,
        r#"{"id":"1"}"#,
    ] {
        let result = analyze(input, None, SortMetric::Score);
        assert_eq!(result["input_count"], 1);
    }
}

#[test]
fn invalid_empty_and_unmatched_author_inputs_return_errors() {
    assert!(analyze_json("{", None, SortMetric::Score, 10).is_err());
    assert!(analyze_json(r#"{"items":[]}"#, None, SortMetric::Score, 10).is_err());
    assert!(analyze_json(r#"[{"id":"1","author_nickname":"甲"}]"#, Some("乙"), SortMetric::Score, 10).is_err());
}

#[test]
fn markdown_contains_required_sections_and_limitations() {
    let result = analyze(
        r#"[{"id":"1","desc":"作品","author_nickname":"甲","digg_count":1}]"#,
        None,
        SortMetric::Score,
    );
    let markdown = markdown(&result);
    for expected in ["总体汇总", "字段覆盖", "时长分桶", "作者", "话题", "Top 作品", "不是互动率"] {
        assert!(markdown.contains(expected));
    }
}

#[test]
fn markdown_escapes_link_and_table_control_characters() {
    let result = analyze(
        r#"[{"id":"1","desc":"正常](https://evil.example) | 下一列","author_nickname":"甲","author_uid":"u|1","digg_count":1}]"#,
        None,
        SortMetric::Score,
    );
    let markdown = markdown(&result);
    assert!(!markdown.contains("[正常](https://evil.example)"));
    assert!(markdown.contains(r"正常\](https://evil.example) \| 下一列"));
    assert!(markdown.contains(r"| 甲 | u\|1 | 1 | 1 | 1.0 |"));
}

#[test]
fn error_texts_name_the_cause() {
    match select_items(r#"{"items":[]}"#, None) {
        Err(error) => assert_eq!(error, "输入中没有有效作品记录（作品需要 id 或 aweme_id）"),
        Ok(_) => panic!("an input without works is refused"),
    }
    match select_items(r#"[{"id":"1","author_nickname":"甲"}]"#, Some("乙")) {
        Err(error) => assert_eq!(error, "没有 author_nickname 精确匹配“乙”的作品"),
        Ok(_) => panic!("an unmatched author is refused"),
    }
    assert_eq!(median_parts(&Vec::new()), None);
    assert_eq!(escape_markdown("u|1"), r"u\|1");
}
