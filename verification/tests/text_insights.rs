use douyin_cli::insights::{analyze, parse_records, TextRecord};
use douyin_cli::json::{to_json_string, Json};

fn val(v: &Json) -> serde_json::Value {
    serde_json::from_str(&to_json_string(v)).unwrap()
}

fn has(result: &serde_json::Value, key: &str, text: &str, count: u64) -> bool {
    result[key].as_array().unwrap().iter().any(|value| value["text"] == text && value["count"] == count)
}

#[test]
fn hot_words_exclude_stop_words_and_keep_topic() {
    let result = val(&analyze(
        &vec![TextRecord::new("这个露营灯真的好用 #露营装备", None), TextRecord::new("露营灯推荐 #露营装备", None)],
        20,
        2,
    ));
    assert!(has(&result, "hot_words", "露营灯", 2));
    assert!(has(&result, "hot_words", "#露营装备", 2));
    assert!(!result["hot_words"].as_array().unwrap().iter().any(|value| value["text"] == "这个" || value["text"] == "真的"));
}

#[test]
fn repeated_meme_requires_minimum_count() {
    let result = val(&analyze(
        &vec![TextRecord::new("绝绝子 😂", None), TextRecord::new("绝绝子 😂", None), TextRecord::new("只出现一次", None)],
        20,
        2,
    ));
    assert!(has(&result, "hot_memes", "绝绝子", 2));
}

#[test]
fn demands_include_signals_and_sort_by_interaction_weight() {
    let result = val(&analyze(
        &vec![
            TextRecord::new("求购买链接", Some(3)),
            TextRecord::new("求购买链接", Some(3)),
            TextRecord::new("怎么安装教程", Some(10)),
            TextRecord::new("怎么安装教程", Some(10)),
        ],
        20,
        2,
    ));
    assert_eq!(result["demands"][0]["text"], "怎么安装教程");
    assert_eq!(result["demands"][0]["signals"], serde_json::from_str::<serde_json::Value>(r#"["怎么", "教程"]"#).unwrap());
}

#[test]
fn raw_comments_extract_replies_and_interaction_weights() {
    let records =
        parse_records(r#"{"comments":[{"text":"主评论","digg_count":8,"replies":[{"text":"回复","digg_count":3}]}]}"#);
    assert_eq!(records, vec![TextRecord::new("主评论", Some(9)), TextRecord::new("回复", Some(4))]);
}

#[test]
fn jsonl_extracts_chatml_content() {
    let records = parse_records(
        "{\"messages\":[{\"role\":\"user\",\"content\":\"第一条\"}]}\n{\"messages\":[{\"role\":\"assistant\",\"content\":\"第二条\"}]}",
    );
    assert_eq!(records.len(), 2);
}

#[test]
fn crawler_text_extra_extracts_repeated_topic() {
    let records = parse_records(
        r##"[
            {"desc":"第一次露营","text_extra":[{"tag_name":"露营装备"}]},
            {"desc":"帐篷体验","text_extra":[{"tag_name":"#露营装备"}]}
        ]"##,
    );
    let result = val(&analyze(&records, 20, 2));
    assert!(has(&result, "hot_words", "#露营装备", 2));
}

#[test]
fn chatml_metadata_quality_score_orders_demands() {
    let records = parse_records(
        r#"[
            {"messages":[{"role":"user","content":"求低分链接"}],"metadata":{"quality_score":1}},
            {"messages":[{"role":"user","content":"求低分链接"}],"metadata":{"quality_score":1}},
            {"messages":[{"role":"user","content":"求高分链接"}],"metadata":{"quality_score":20}},
            {"messages":[{"role":"user","content":"求高分链接"}],"metadata":{"quality_score":20}}
        ]"#,
    );
    let result = val(&analyze(&records, 20, 2));
    assert_eq!(result["demands"][0]["text"], "求高分链接");
}

#[test]
fn numeric_jsonl_falls_back_to_plain_text() {
    let records = parse_records("666\n666\n");
    let result = val(&analyze(&records, 20, 2));
    assert_eq!(result["input_count"], 2);
    assert!(has(&result, "hot_memes", "666", 2));
}

#[test]
fn single_numeric_json_falls_back_to_plain_text() {
    let records = parse_records("666");
    let result = val(&analyze(&records, 20, 1));
    assert_eq!(result["input_count"], 1);
    assert!(has(&result, "hot_memes", "666", 1));
}

#[test]
fn plain_text_extracts_each_non_empty_line() {
    let records = parse_records("第一条\n\n第二条\n");
    assert_eq!(records, vec![TextRecord::new("第一条", None), TextRecord::new("第二条", None)]);
}

#[test]
fn top_limits_each_list() {
    let result = val(&analyze(
        &vec![TextRecord::new("露营灯 帐篷 睡袋", None), TextRecord::new("露营灯 帐篷 睡袋", None)],
        1,
        2,
    ));
    assert_eq!(result["hot_words"].as_array().unwrap().len(), 1);
    assert_eq!(result["input_count"], 2);
}

#[test]
fn record_order_does_not_change_the_analysis() {
    let texts = [
        ("哪里买同款 求链接", Some(3)),
        ("这个真的绝绝子 笑死", None),
        ("哪里买同款 求链接", Some(5)),
        ("汽车 保养 教程 有没有", Some(2)),
        ("笑死 笑死 绝绝子", Some(7)),
        ("汽车 保养", None),
    ];
    let records: Vec<TextRecord> = texts.iter().map(|(t, w)| TextRecord::new(t, *w)).collect();
    let reversed: Vec<TextRecord> = texts.iter().rev().map(|(t, w)| TextRecord::new(t, *w)).collect();
    let rotated: Vec<TextRecord> =
        texts.iter().cycle().skip(2).take(texts.len()).map(|(t, w)| TextRecord::new(t, *w)).collect();
    let first = to_json_string(&analyze(&records, 20, 1));
    assert_eq!(to_json_string(&analyze(&reversed, 20, 1)), first);
    assert_eq!(to_json_string(&analyze(&rotated, 20, 1)), first);
}
