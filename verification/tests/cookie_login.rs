use douyin_cli::cookie::{parse, probe, sso_probe_confirms, validate, web_probe_confirms};
use douyin_cli::json::parse_json;

fn value_of(pairs: &[(String, String)], key: &str) -> Option<String> {
    pairs.iter().rev().find(|(k, _)| k == key).map(|(_, v)| v.clone())
}

#[test]
fn validates_compatible_cookie_fields() {
    assert!(validate("sessionid=abc; ttwid=def"));
    assert!(validate("TTWID=def"));
    assert!(!validate("foo=bar"));
    assert!(!validate("sessionid"));
}

#[test]
fn parses_values_containing_equals_signs() {
    let values = parse("sessionid=a=b; ttwid=c");
    assert_eq!(value_of(&values, "sessionid").unwrap(), "a=b");
    assert_eq!(value_of(&values, "ttwid").unwrap(), "c");
}

#[test]
fn empty_login_values_do_not_validate() {
    assert!(!validate("sessionid=; ttwid="));
    assert!(!validate(""));
}

#[test]
fn probe_needs_a_confirmation() {
    assert_eq!(probe(Some(true), None), Some(true));
    assert_eq!(probe(None, Some(true)), Some(true));
    assert_eq!(probe(Some(false), Some(false)), Some(false));
    assert_eq!(probe(Some(false), None), None);
    assert_eq!(probe(None, None), None);
}

#[test]
fn captcha_replies_cannot_confirm_either_way() {
    let clean = parse_json(r#"{"status_code":0,"data":[]}"#).unwrap();
    let refused = parse_json(r#"{"status_code":8}"#).unwrap();
    let captcha = parse_json(r#"{"status_code":0,"search_nil_info":{"search_nil_type":"verify_check"}}"#).unwrap();
    let logged_in = parse_json(r#"{"has_login":true}"#).unwrap();
    let logged_out = parse_json(r#"{"has_login":false}"#).unwrap();
    assert_eq!(web_probe_confirms(true, &clean), Some(true));
    assert_eq!(web_probe_confirms(true, &refused), Some(false));
    assert_eq!(web_probe_confirms(true, &captcha), None);
    assert_eq!(web_probe_confirms(false, &clean), Some(false));
    assert_eq!(sso_probe_confirms(true, &logged_in), Some(true));
    assert_eq!(sso_probe_confirms(true, &logged_out), Some(false));
    assert_eq!(sso_probe_confirms(true, &captcha), None);
    assert_eq!(sso_probe_confirms(false, &logged_in), Some(false));
    assert_eq!(probe(web_probe_confirms(true, &captcha), sso_probe_confirms(true, &logged_out)), None);
}

#[test]
fn validation_matches_the_parsed_login_keys() {
    for cookie in ["sessionid=", "  ", " ttwid = x ", "SessionID=abc; other=1", "a=b;;sessionid ; ttwid=", " ;TTWID=v; "] {
        let parsed = parse(cookie);
        let has_key = parsed.iter().any(|(k, _)| k.eq_ignore_ascii_case("sessionid") || k.eq_ignore_ascii_case("ttwid"));
        assert_eq!(validate(cookie), has_key, "{cookie}");
    }
    assert!(!validate("sessionid="));
    assert!(!validate("  "));
    assert!(validate(" ttwid = x "));
}
