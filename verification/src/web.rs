//! Web API plumbing that the crawlers share: query strings, page parameters,
//! the checks on a response, and the state of a comment crawl between pages.
use vstd::prelude::*;
use crate::cookie::{contains_verify_check, has_verify_check, string_pairs_view};
use crate::crawler::{int_of, value_i64};
use crate::json::{items_view, json_doc, parsed_json, Json, JsonV};
use crate::text::{chars_of, is_alnum, join_str, signed_decimal, signed_decimal_chars, string_of};

verus! {

broadcast use vstd::string::group_string_axioms;

/// A character that form encoding leaves as it is.
pub open spec fn form_safe(c: char) -> bool {
    is_alnum(c) || c == '*' || c == '-' || c == '.' || c == '_'
}

/// The UTF-8 encoding of a character.
pub open spec fn utf8_bytes(c: char) -> Seq<u8> {
    let n = c as int;
    if n < 0x80 {
        seq![n as u8]
    } else if n < 0x800 {
        seq![(0xc0 + n / 64) as u8, (0x80 + n % 64) as u8]
    } else if n < 0x10000 {
        seq![(0xe0 + n / 4096) as u8, (0x80 + (n / 64) % 64) as u8, (0x80 + n % 64) as u8]
    } else {
        seq![
            (0xf0 + n / 262144) as u8,
            (0x80 + (n / 4096) % 64) as u8,
            (0x80 + (n / 64) % 64) as u8,
            (0x80 + n % 64) as u8,
        ]
    }
}

/// An upper-case hexadecimal digit.
pub open spec fn hex_digit(d: int) -> char {
    if d < 10 {
        (0x30 + d) as char
    } else {
        (0x37 + d) as char
    }
}

/// The form encoding of one byte: ASCII letters, digits and `*-._` as they
/// are, a space as `+`, any other byte as `%` and two upper-case hex digits.
pub open spec fn form_byte(b: u8) -> Seq<char> {
    if form_safe(b as char) {
        seq![b as char]
    } else if b == 0x20 {
        seq!['+']
    } else {
        seq!['%', hex_digit(b as int / 16), hex_digit(b as int % 16)]
    }
}

/// The form encoding of some bytes, byte by byte.
pub open spec fn form_bytes(bytes: Seq<u8>) -> Seq<char>
    decreases bytes.len(),
{
    if bytes.len() == 0 {
        Seq::empty()
    } else {
        form_bytes(bytes.drop_last()) + form_byte(bytes.last())
    }
}

/// The `application/x-www-form-urlencoded` form of a text: the form encoding
/// of its UTF-8 bytes.
pub open spec fn form_encoded(s: Seq<char>) -> Seq<char>
    decreases s.len(),
{
    if s.len() == 0 {
        Seq::empty()
    } else {
        form_encoded(s.drop_last()) + form_bytes(utf8_bytes(s.last()))
    }
}

/// `url::form_urlencoded::byte_serialize` of the text's bytes, which is
/// [`form_encoded`]; a text of letters, digits and `*-._` only comes back
/// unchanged.
#[verifier::external_body]
fn form_encode(value: &str) -> (r: String)
    ensures
        r@ == form_encoded(value@),
        (forall|i: int| 0 <= i < value@.len() ==> form_safe(#[trigger] value@[i])) ==> r@ == value@,
{
    url::form_urlencoded::byte_serialize(value.as_bytes()).collect()
}

/// `key=value` pairs joined by `&`, each value form-encoded.
pub open spec fn query_text(params: Seq<(Seq<char>, Seq<char>)>) -> Seq<char>
    decreases params.len(),
{
    if params.len() == 0 {
        Seq::empty()
    } else if params.len() == 1 {
        params[0].0 + seq!['='] + form_encoded(params[0].1)
    } else {
        query_text(params.drop_last()) + seq!['&'] + params.last().0 + seq!['='] + form_encoded(
            params.last().1,
        )
    }
}

/// The query string of a request, as it is signed; see [`query_text`].
pub fn encode_query(params: &Vec<(String, String)>) -> (r: String)
    ensures
        r@ == query_text(string_pairs_view(params@)),
{
    let ghost pv = string_pairs_view(params@);
    let mut out: Vec<char> = Vec::new();
    let mut i: usize = 0;
    assert(pv.take(0) =~= Seq::<(Seq<char>, Seq<char>)>::empty());
    while i < params.len()
        invariant
            i <= params.len(),
            pv == string_pairs_view(params@),
            out@ == query_text(pv.take(i as int)),
        decreases params.len() - i,
    {
        assert(pv.take(i + 1).drop_last() =~= pv.take(i as int));
        assert(pv.take(i + 1).last() == pv[i as int]);
        let ghost before = out@;
        if i > 0 {
            out.push('&');
        }
        crate::text::append_chars(&mut out, chars_of(params[i].0.as_str()).as_slice());
        out.push('=');
        let enc = form_encode(params[i].1.as_str());
        crate::text::append_chars(&mut out, chars_of(enc.as_str()).as_slice());
        proof {
            if i == 0 {
                assert(out@ =~= pv[0].0 + seq!['='] + form_encoded(pv[0].1));
            } else {
                assert(out@ =~= before + seq!['&'] + pv[i as int].0 + seq!['='] + form_encoded(pv[i as int].1));
            }
        }
        i = i + 1;
    }
    assert(pv.take(params.len() as int) =~= pv);
    string_of(out.as_slice())
}

/// The parameters every web API request carries after its own.
pub open spec fn common_params() -> Seq<(Seq<char>, Seq<char>)> {
    seq![("device_platform"@, "webapp"@), ("aid"@, "6383"@), ("channel"@, "channel_pc_web"@)]
}

/// Appends the parameters every web API request carries.
pub fn add_common_params(params: &mut Vec<(String, String)>)
    ensures
        string_pairs_view(final(params)@) == string_pairs_view(old(params)@) + common_params(),
{
    let ghost before = string_pairs_view(params@);
    params.push(("device_platform".to_owned(), "webapp".to_owned()));
    params.push(("aid".to_owned(), "6383".to_owned()));
    params.push(("channel".to_owned(), "channel_pc_web".to_owned()));
    assert(string_pairs_view(params@) =~= before + common_params());
}

/// The web API paths whose requests are signed.
pub open spec fn signed_path(path: Seq<char>) -> bool {
    path == "/aweme/v1/web/aweme/detail/"@ || path == "/aweme/v1/web/music/aweme/"@ || path
        == "/aweme/v1/web/user/follower/list/"@
}

/// The crawler signs requests to this path.
pub fn needs_signature(path: &str) -> (r: bool)
    ensures
        r == signed_path(path@),
{
    crate::json::str_eq(path, "/aweme/v1/web/aweme/detail/") || crate::json::str_eq(
        path,
        "/aweme/v1/web/music/aweme/",
    ) || crate::json::str_eq(path, "/aweme/v1/web/user/follower/list/")
}

/// The signing function of a comment API path: replies have their own.
pub fn sign_function(path: &str) -> (r: &'static str)
    ensures
        crate::text::contains(path@, "reply"@) ==> r@ == "sign_reply"@,
        !crate::text::contains(path@, "reply"@) ==> r@ == "sign_datail"@,
{
    if crate::text::contains_chars(chars_of(path).as_slice(), chars_of("reply").as_slice()) {
        "sign_reply"
    } else {
        "sign_datail"
    }
}

/// The integer `status_code` of a response, 0 when absent (crawler reading:
/// an integer or integer text).
pub open spec fn web_status(v: JsonV) -> i64 {
    match v.get("status_code"@) {
        Some(s) => match int_of(s) {
            Some(n) => n,
            None => 0,
        },
        None => 0,
    }
}

/// The integer `status_code` of a response, 0 when absent (comment reading:
/// an integer only).
pub open spec fn comment_status(v: JsonV) -> i64 {
    match v.get("status_code"@) {
        Some(s) => match s.as_i64() {
            Some(n) => n,
            None => 0,
        },
        None => 0,
    }
}

/// What the crawler makes of a web API response: the document, or why it
/// is refused (a failed status, an empty body, no JSON, a captcha, or a
/// non-zero `status_code`).
pub open spec fn web_outcome(status_ok: bool, status: Seq<char>, text: Seq<char>) -> Result<JsonV, Seq<char>> {
    if !status_ok {
        Err("网页接口请求失败: "@ + status + seq![' '] + text)
    } else if text.len() == 0 {
        Err("响应体为空，Cookie 可能已失效"@)
    } else {
        match parsed_json(text) {
            Err(e) => Err("网页接口响应不是 JSON: "@ + e),
            Ok(v) => if has_verify_check(v) {
                Err("触发验证码，请在浏览器完成验证"@)
            } else if web_status(v) != 0 {
                Err("网页接口返回失败状态: "@ + text)
            } else {
                Ok(v)
            },
        }
    }
}

/// What the comment crawler makes of a comment API response; see [`web_outcome`].
pub open spec fn comment_outcome(status_ok: bool, status: Seq<char>, text: Seq<char>) -> Result<JsonV, Seq<char>> {
    if !status_ok {
        Err("评论请求失败: "@ + status + seq![' '] + text)
    } else if text.len() == 0 {
        Err("响应体为空，Cookie 可能已失效"@)
    } else {
        match parsed_json(text) {
            Err(e) => Err("评论响应不是 JSON: "@ + e),
            Ok(v) => if has_verify_check(v) {
                Err("触发验证码，请完成验证后再继续"@)
            } else if comment_status(v) != 0 {
                Err("评论接口返回失败状态: "@ + text)
            } else {
                Ok(v)
            },
        }
    }
}

/// The plain value of a checked response.
pub open spec fn checked(r: Result<Json, String>) -> Result<JsonV, Seq<char>> {
    match r {
        Ok(j) => Ok(j.jv()),
        Err(e) => Err(e@),
    }
}

fn join_space(a: &str, b: &str) -> (r: String)
    ensures
        r@ == a@ + seq![' '] + b@,
{
    let mut v = chars_of(a);
    v.push(' ');
    crate::text::append_chars(&mut v, chars_of(b).as_slice());
    string_of(v.as_slice())
}

/// Checks a web API response for the crawler; see [`web_outcome`].
pub fn check_web_response(status_ok: bool, status: &str, text: &str) -> (r: Result<Json, String>)
    ensures
        checked(r) == web_outcome(status_ok, status@, text@),
{
    if !status_ok {
        let head = join_str("网页接口请求失败: ", status);
        return Err(join_space(head.as_str(), text));
    }
    if text.is_empty() {
        return Err("响应体为空，Cookie 可能已失效".to_owned());
    }
    let value = match crate::json::parse_json(text) {
        Ok(v) => v,
        Err(e) => return Err(join_str("网页接口响应不是 JSON: ", e.as_str())),
    };
    if contains_verify_check(&value) {
        return Err("触发验证码，请在浏览器完成验证".to_owned());
    }
    let code = match value.get("status_code") {
        Some(s) => match value_i64(s) {
            Some(n) => n,
            None => 0,
        },
        None => 0,
    };
    if code != 0 {
        return Err(join_str("网页接口返回失败状态: ", text));
    }
    Ok(value)
}

/// Checks a comment API response; see [`comment_outcome`].
pub fn check_comment_response(status_ok: bool, status: &str, text: &str) -> (r: Result<Json, String>)
    ensures
        checked(r) == comment_outcome(status_ok, status@, text@),
{
    if !status_ok {
        let head = join_str("评论请求失败: ", status);
        return Err(join_space(head.as_str(), text));
    }
    if text.is_empty() {
        return Err("响应体为空，Cookie 可能已失效".to_owned());
    }
    let value = match crate::json::parse_json(text) {
        Ok(v) => v,
        Err(e) => return Err(join_str("评论响应不是 JSON: ", e.as_str())),
    };
    if contains_verify_check(&value) {
        return Err("触发验证码，请完成验证后再继续".to_owned());
    }
    let code = match value.get("status_code") {
        Some(s) => match s.as_i64() {
            Some(n) => n,
            None => 0,
        },
        None => 0,
    };
    if code != 0 {
        return Err(join_str("评论接口返回失败状态: ", text));
    }
    Ok(value)
}

} // verus!
