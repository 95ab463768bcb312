use douyin_cli::auth::apply_openapi;
use douyin_cli::json::{parse_json, to_json_string, Json};
use douyin_cli::settings::{config_root, defaults, merge, openapi, settings_file};

fn doc(text: &str) -> Json {
    parse_json(text).unwrap()
}

fn val(v: &Json) -> serde_json::Value {
    serde_json::from_str(&to_json_string(v)).unwrap()
}

#[test]
fn merge_preserves_defaults_and_unknown_fields() {
    let mut base = doc(r#"{"cookie": "", "openapi": {"openId": ""}}"#);
    merge(&mut base, doc(r#"{"cookie": "sessionid=x", "openapi": {"custom": true}}"#));
    let base = val(&base);
    assert_eq!(base["cookie"], "sessionid=x");
    assert_eq!(base["openapi"]["openId"], "");
    assert_eq!(base["openapi"]["custom"], true);
}

#[test]
fn settings_live_under_the_config_root() {
    assert_eq!(config_root(Some("/h"), None, None, Some("/home/u"), false), "/h");
    assert_eq!(config_root(None, None, Some("/x"), Some("/home/u"), false), "/x/douyin-cli");
    assert_eq!(config_root(None, None, None, Some("/home/u"), false), "/home/u/.config/douyin-cli");
    assert_eq!(settings_file("/h"), "/h/config/settings.json");
}

#[test]
fn saved_tokens_land_in_the_openapi_section() {
    let data = defaults("/home/u");
    let updated = apply_openapi(&data, &vec![("accessToken".to_owned(), Json::Str("t".to_owned()))]).unwrap();
    let section = openapi(&updated);
    let section = val(&Json::Obj(section));
    assert_eq!(section["accessToken"], "t");
    assert_eq!(section["clientKey"], "");
    assert_eq!(val(&updated)["downloadPath"], "/home/u/Downloads/douyin");
    assert!(apply_openapi(&doc("{}"), &Vec::new()).is_err());
}

#[test]
fn json_text_escapes_as_serde_json_does() {
    let text = "引号\" 反斜杠\\ 控制\u{1}\u{1f}\t\n 结束";
    let doc = Json::Obj(vec![("k\u{7}".to_owned(), Json::Str(text.to_owned())), ("n".to_owned(), Json::NegInt(-5))]);
    let expected = format!("{{{}:{},\"n\":-5}}", serde_json::to_string("k\u{7}").unwrap(), serde_json::to_string(text).unwrap());
    assert_eq!(to_json_string(&doc), expected);
    assert!(to_json_string(&Json::Str("\u{1}".to_owned())).contains("\\u0001"));
}
