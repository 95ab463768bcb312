//! Comment crawling decisions: the work a target names, the normalized form
//! of a comment, the pages to request, and comments as chat-style training
//! records.
use vstd::prelude::*;
use crate::crawler::{int_of, int_json, value_i64, CrawlType};
use crate::json::{
    entries_view, insert_str, items_view, lemma_arr_view, lemma_obj_view, lookup, set_entry, Json,
    JsonV,
};
use crate::target::{nonempty, parsed_url, strings_view, UrlParts};
use crate::text::{all_ascii_digits, all_digits, chars_of, join_str, string_of, trim, trim_chars};

verus! {

broadcast use vstd::string::group_string_axioms;

/// What to do to find the work a comment target names.
pub enum AwemeTarget {
    /// The work ID.
    Id(String),
    /// A short link: follow its redirect, then read the final URL.
    Redirect(String),
}

/// The work ID in the path of a work URL: the digits after `video` or
/// `note`, else the last segment when it is all digits.
pub open spec fn id_in_path(parts: Seq<Seq<char>>) -> Option<Seq<char>> {
    match marked_id(parts, "video"@) {
        Some(id) => Some(id),
        None => match marked_id(parts, "note"@) {
            Some(id) => Some(id),
            None => if parts.len() > 0 && all_digits(parts.last()) {
                Some(parts.last())
            } else {
                None
            },
        },
    }
}

/// The first index of `marker` among the segments.
pub open spec fn position_of(parts: Seq<Seq<char>>, marker: Seq<char>) -> Option<int>
    decreases parts.len(),
{
    if parts.len() == 0 {
        None
    } else if parts[0] == marker {
        Some(0)
    } else {
        match position_of(parts.drop_first(), marker) {
            Some(i) => Some(i + 1),
            None => None,
        }
    }
}

/// The all-digit segment right after the first `marker`.
pub open spec fn marked_id(parts: Seq<Seq<char>>, marker: Seq<char>) -> Option<Seq<char>> {
    match position_of(parts, marker) {
        Some(i) => if 0 <= i && i + 1 < parts.len() && all_digits(parts[i + 1]) {
            Some(parts[i + 1])
        } else {
            None
        },
        None => None,
    }
}

/// What a comment target names, after trimming: all digits are the ID; a
/// short link is followed; a work URL gives the ID in its path.
pub open spec fn aweme_target(target: Seq<char>) -> Result<AwemePlanView, Seq<char>> {
    let t = trim(target);
    if t.len() > 0 && all_digits(t) {
        Ok(AwemePlanView::Id(t))
    } else {
        match parsed_url(t) {
            Err(_) => Err("无法识别作品 ID: "@ + t),
            Ok(parts) => if parts.host == Some("v.douyin.com"@) {
                Ok(AwemePlanView::Redirect(parts.serialized))
            } else {
                match id_in_path(nonempty(parts.segments)) {
                    Some(id) => Ok(AwemePlanView::Id(id)),
                    None => Err("无法识别作品 ID: "@ + t),
                }
            },
        }
    }
}

/// The plain value of an [`AwemeTarget`].
pub enum AwemePlanView {
    Id(Seq<char>),
    Redirect(Seq<char>),
}

/// The plain value of a comment-target outcome.
pub open spec fn aweme_outcome(r: Result<AwemeTarget, String>) -> Result<AwemePlanView, Seq<char>> {
    match r {
        Ok(AwemeTarget::Id(s)) => Ok(AwemePlanView::Id(s@)),
        Ok(AwemeTarget::Redirect(s)) => Ok(AwemePlanView::Redirect(s@)),
        Err(e) => Err(e@),
    }
}

fn nonempty_exec(segments: &Vec<String>) -> (r: Vec<String>)
    ensures
        strings_view(r@) == nonempty(strings_view(segments@)),
{
    let ghost sv = strings_view(segments@);
    let mut out: Vec<String> = Vec::new();
    let mut i: usize = 0;
    assert(sv.take(0) =~= Seq::<Seq<char>>::empty());
    while i < segments.len()
        invariant
            i <= segments.len(),
            sv == strings_view(segments@),
            strings_view(out@) == nonempty(sv.take(i as int)),
        decreases segments.len() - i,
    {
        assert(sv.take(i + 1).drop_last() =~= sv.take(i as int));
        assert(sv.take(i + 1).last() == segments@[i as int]@);
        if !segments[i].as_str().is_empty() {
            let ghost b = out@;
            let c = segments[i].clone();
            out.push(c);
            assert(strings_view(out@) =~= strings_view(b).push(segments@[i as int]@));
        }
        i = i + 1;
    }
    assert(sv.take(segments.len() as int) =~= sv);
    out
}

fn marked_id_exec(parts: &Vec<String>, marker: &str) -> (r: Option<String>)
    ensures
        r matches Some(s) ==> marked_id(strings_view(parts@), marker@) == Some(s@),
        r is None ==> marked_id(strings_view(parts@), marker@) is None,
{
    let ghost pv = strings_view(parts@);
    let mut i: usize = 0;
    assert(pv.skip(0) =~= pv);
    while i < parts.len()
        invariant
            i <= parts.len(),
            pv == strings_view(parts@),
            forall|k: int| 0 <= k < i ==> pv[k] != marker@,
            position_of(pv, marker@) == match position_of(pv.skip(i as int), marker@) {
                Some(j) => Some(j + i),
                None => None::<int>,
            },
        decreases parts.len() - i,
    {
        assert(pv.skip(i as int)[0] == parts@[i as int]@);
        if crate::json::str_eq(parts[i].as_str(), marker) {
            assert(position_of(pv, marker@) == Some(i as int));
            if i + 1 < parts.len() && all_ascii_digits(chars_of(parts[i + 1].as_str()).as_slice()) {
                return Some(parts[i + 1].clone());
            }
            return None;
        }
        assert(pv.skip(i as int).drop_first() =~= pv.skip(i + 1));
        i = i + 1;
    }
    assert(pv.skip(i as int) =~= Seq::<Seq<char>>::empty());
    None
}

/// The work ID in the path of a work URL; see [`id_in_path`].
pub fn aweme_id_from_path(target: &str, segments: &Vec<String>) -> (r: Result<String, String>)
    ensures
        match id_in_path(nonempty(strings_view(segments@))) {
            Some(id) => r matches Ok(s) && s@ == id,
            None => r matches Err(e) && e@ == "无法识别作品 ID: "@ + target@,
        },
{
    let parts = nonempty_exec(segments);
    match marked_id_exec(&parts, "video") {
        Some(id) => return Ok(id),
        None => {},
    }
    match marked_id_exec(&parts, "note") {
        Some(id) => return Ok(id),
        None => {},
    }
    if parts.len() > 0 && all_ascii_digits(chars_of(parts[parts.len() - 1].as_str()).as_slice()) {
        return Ok(parts[parts.len() - 1].clone());
    }
    Err(join_str("无法识别作品 ID: ", target))
}

/// What a comment target names; see [`aweme_target`]. Which texts are URLs,
/// and their parts, is the named [`parsed_url`].
pub fn extract_aweme_id(target: &str) -> (r: Result<AwemeTarget, String>)
    ensures
        aweme_outcome(r) == aweme_target(target@),
{
    let t = string_of(trim_chars(chars_of(target).as_slice()).as_slice());
    let tc = chars_of(t.as_str());
    if tc.len() > 0 && all_ascii_digits(tc.as_slice()) {
        return Ok(AwemeTarget::Id(t));
    }
    match crate::target::parse_url(t.as_str()) {
        Err(_) => Err(join_str("无法识别作品 ID: ", t.as_str())),
        Ok(parts) => {
            let short = match &parts.host {
                Some(h) => crate::json::str_eq(h.as_str(), "v.douyin.com"),
                None => false,
            };
            if short {
                return Ok(AwemeTarget::Redirect(parts.serialized));
            }
            match aweme_id_from_path(t.as_str(), &parts.segments) {
                Ok(id) => Ok(AwemeTarget::Id(id)),
                Err(e) => Err(e),
            }
        },
    }
}

/// The first non-empty string under one of `keys`, or the empty text.
pub open spec fn first_string(v: JsonV, keys: Seq<Seq<char>>) -> Seq<char>
    decreases keys.len(),
{
    if keys.len() == 0 {
        Seq::empty()
    } else {
        match v.get(keys[0]) {
            Some(JsonV::Str(s)) => if s.len() > 0 {
                s
            } else {
                first_string(v, keys.drop_first())
            },
            _ => first_string(v, keys.drop_first()),
        }
    }
}

/// The string under `key` of an optional object, or the empty text.
pub open spec fn object_string(obj: Option<JsonV>, key: Seq<char>) -> Seq<char> {
    match obj {
        Some(JsonV::Obj(es)) => match lookup(es, key) {
            Some(JsonV::Str(s)) => s,
            _ => Seq::empty(),
        },
        _ => Seq::empty(),
    }
}

/// The user fields of a comment or reply.
pub open spec fn user_fields(user: Option<JsonV>) -> JsonV {
    JsonV::Obj(
        seq![
            ("nickname"@, JsonV::Str(object_string(user, "nickname"@))),
            ("sec_uid"@, JsonV::Str(object_string(user, "sec_uid"@))),
            ("uid"@, JsonV::Str(object_string(user, "uid"@))),
            ("unique_id"@, JsonV::Str(object_string(user, "unique_id"@))),
        ],
    )
}

/// A value, or a default when absent.
pub open spec fn or_value(v: Option<JsonV>, default: JsonV) -> JsonV {
    match v {
        Some(x) => x,
        None => default,
    }
}

/// The normalized form of a comment from the web API.
pub open spec fn normalized(c: JsonV) -> JsonV {
    JsonV::Obj(
        seq![
            ("create_time"@, or_value(c.get("create_time"@), JsonV::Null)),
            ("digg_count"@, or_value(c.get("digg_count"@), JsonV::UInt(0))),
            ("id"@, JsonV::Str(first_string(c, seq!["cid"@, "comment_id"@]))),
            ("ip_label"@, JsonV::Str(first_string(c, seq!["ip_label"@]))),
            ("reply_comment_total"@, or_value(c.get("reply_comment_total"@), JsonV::UInt(0))),
            ("text"@, JsonV::Str(first_string(c, seq!["text"@]))),
            ("user"@, user_fields(c.get("user"@))),
        ],
    )
}

fn first_string_exec(v: &Json, keys: Vec<&str>) -> (r: String)
    ensures
        r@ == first_string(v.jv(), crate::stats::key_views(keys@)),
{
    let ghost kv = crate::stats::key_views(keys@);
    let mut i: usize = 0;
    assert(kv.skip(0) =~= kv);
    while i < keys.len()
        invariant
            i <= keys.len(),
            kv == crate::stats::key_views(keys@),
            first_string(v.jv(), kv) == first_string(v.jv(), kv.skip(i as int)),
        decreases keys.len() - i,
    {
        assert(kv.skip(i as int)[0] == keys@[i as int]@);
        assert(kv.skip(i as int).drop_first() =~= kv.skip(i + 1));
        match v.get(keys[i]) {
            Some(Json::Str(s)) => {
                if !s.as_str().is_empty() {
                    return s.clone();
                }
            },
            _ => {},
        }
        i = i + 1;
    }
    assert(kv.skip(i as int) =~= Seq::<Seq<char>>::empty());
    String::new()
}

fn object_string_exec(obj: Option<&Json>, key: &str) -> (r: String)
    ensures
        r@ == object_string(
            match obj {
                Some(x) => Some(x.jv()),
                None => None,
            },
            key@,
        ),
{
    match obj {
        Some(o) => match o {
            Json::Obj(_) => match o.get(key) {
                Some(Json::Str(s)) => s.clone(),
                _ => String::new(),
            },
            _ => String::new(),
        },
        None => String::new(),
    }
}

fn user_fields_exec(user: Option<&Json>) -> (r: Json)
    ensures
        r.jv() == user_fields(
            match user {
                Some(x) => Some(x.jv()),
                None => None,
            },
        ),
{
    let a = Json::Str(object_string_exec(user, "nickname"));
    let b = Json::Str(object_string_exec(user, "sec_uid"));
    let c = Json::Str(object_string_exec(user, "uid"));
    let d = Json::Str(object_string_exec(user, "unique_id"));
    let ghost views = seq![("nickname"@, a.jv()), ("sec_uid"@, b.jv()), ("uid"@, c.jv()), ("unique_id"@, d.jv())];
    let es = vec![
        ("nickname".to_owned(), a),
        ("sec_uid".to_owned(), b),
        ("uid".to_owned(), c),
        ("unique_id".to_owned(), d),
    ];
    assert(entries_view(es@) =~= views);
    proof {
        lemma_obj_view(es);
    }
    Json::Obj(es)
}

fn or_value_exec(v: Option<&Json>, default: Json) -> (r: Json)
    ensures
        r.jv() == or_value(
            match v {
                Some(x) => Some(x.jv()),
                None => None,
            },
            default.jv(),
        ),
{
    match v {
        Some(x) => x.duplicate(),
        None => default,
    }
}

/// The normalized form of a comment; see [`normalized`].
pub fn normalize_comment(comment: &Json) -> (r: Json)
    ensures
        r.jv() == normalized(comment.jv()),
{
    let create_time = or_value_exec(comment.get("create_time"), Json::Null);
    let digg = or_value_exec(comment.get("digg_count"), Json::UInt(0));
    let ids = vec!["cid", "comment_id"];
    assert(crate::stats::key_views(ids@) =~= seq!["cid"@, "comment_id"@]);
    let id = Json::Str(first_string_exec(comment, ids));
    let ip = vec!["ip_label"];
    assert(crate::stats::key_views(ip@) =~= seq!["ip_label"@]);
    let ip_label = Json::Str(first_string_exec(comment, ip));
    let total = or_value_exec(comment.get("reply_comment_total"), Json::UInt(0));
    let tx = vec!["text"];
    assert(crate::stats::key_views(tx@) =~= seq!["text"@]);
    let text = Json::Str(first_string_exec(comment, tx));
    let user = user_fields_exec(comment.get("user"));
    let ghost views = seq![
        ("create_time"@, create_time.jv()),
        ("digg_count"@, digg.jv()),
        ("id"@, id.jv()),
        ("ip_label"@, ip_label.jv()),
        ("reply_comment_total"@, total.jv()),
        ("text"@, text.jv()),
        ("user"@, user.jv()),
    ];
    let es = vec![
        ("create_time".to_owned(), create_time),
        ("digg_count".to_owned(), digg),
        ("id".to_owned(), id),
        ("ip_label".to_owned(), ip_label),
        ("reply_comment_total".to_owned(), total),
        ("text".to_owned(), text),
        ("user".to_owned(), user),
    ];
    assert(entries_view(es@) =~= views);
    proof {
        lemma_obj_view(es);
    }
    Json::Obj(es)
}

/// The like count of a comment: an integer or integer text, else 0.
pub open spec fn digg_of(v: JsonV) -> i64 {
    match v.get("digg_count"@) {
        Some(d) => match int_of(d) {
            Some(n) => n,
            None => 0,
        },
        None => 0,
    }
}

/// The like count of a comment; see [`digg_of`].
pub fn digg(v: &Json) -> (r: i64)
    ensures
        r == digg_of(v.jv()),
{
    match v.get("digg_count") {
        Some(d) => match value_i64(d) {
            Some(n) => n,
            None => 0,
        },
        None => 0,
    }
}

/// A page flag is set: `true`, or an integer other than 0.
pub open spec fn flag_set(v: Option<JsonV>) -> bool {
    match v {
        Some(x) => match x.as_bool() {
            Some(b) => b,
            None => match x.as_i64() {
                Some(n) => n != 0,
                None => false,
            },
        },
        None => false,
    }
}

/// Executable form of [`flag_set`].
pub fn truthy(v: Option<&Json>) -> (r: bool)
    ensures
        r == flag_set(
            match v {
                Some(x) => Some(x.jv()),
                None => None,
            },
        ),
{
    match v {
        Some(x) => match x.as_bool() {
            Some(b) => b,
            None => match x.as_i64() {
                Some(n) => n != 0,
                None => false,
            },
        },
        None => false,
    }
}

/// A positive limit has been reached.
pub fn reached_limit(length: usize, limit: usize) -> (r: bool)
    ensures
        r == (limit > 0 && length >= limit),
{
    limit > 0 && length >= limit
}

/// The text of a string value, or the empty text.
pub open spec fn text_of(v: Option<JsonV>) -> Seq<char> {
    match v {
        Some(JsonV::Str(s)) => s,
        _ => Seq::empty(),
    }
}

/// The metadata of a chat record made of a comment and, maybe, a reply.
pub open spec fn metadata_of(aweme_id: Seq<char>, c: JsonV, reply: Option<JsonV>) -> JsonV {
    let score: int = digg_of(c) + match reply {
        Some(r) => digg_of(r) as int,
        None => 0int,
    };
    let base = seq![
        ("aweme_id"@, JsonV::Str(aweme_id)),
        ("comment_create_time"@, or_value(c.get("create_time"@), JsonV::Null)),
        ("comment_digg_count"@, int_json(digg_of(c))),
        ("comment_id"@, JsonV::Str(first_string(c, seq!["id"@]))),
        ("comment_user"@, user_fields(c.get("user"@))),
        ("quality_score"@, int_json(score as i64)),
    ];
    match reply {
        Some(r) => JsonV::Obj(
            base + seq![
                ("reply_create_time"@, or_value(r.get("create_time"@), JsonV::Null)),
                ("reply_digg_count"@, int_json(digg_of(r))),
                ("reply_id"@, JsonV::Str(first_string(r, seq!["id"@]))),
                ("reply_user"@, user_fields(r.get("user"@))),
                ("source"@, JsonV::Str("douyin_comment_reply"@)),
            ],
        ),
        None => JsonV::Obj(base + seq![("source"@, JsonV::Str("douyin_comment"@))]),
    }
}

/// How comments become chat records.
pub struct ChatmlOptions {
    pub comment_role: String,
    pub reply_role: String,
    /// Comments with fewer likes are left out.
    pub min_comment_digg: i64,
    /// Replies with fewer likes are left out.
    pub min_reply_digg: i64,
    /// A comment without replies becomes a record of its own.
    pub include_single_comments: bool,
}

/// One chat message.
pub open spec fn message(role: Seq<char>, content: Seq<char>) -> JsonV {
    JsonV::Obj(seq![("content"@, JsonV::Str(content)), ("role"@, JsonV::Str(role))])
}

/// The comment text of a comment that qualifies, trimmed; `None` otherwise.
pub open spec fn kept_text(c: JsonV, min_digg: i64) -> Option<Seq<char>> {
    let text = trim(text_of(c.get("text"@)));
    if text.len() == 0 || digg_of(c) < min_digg {
        None
    } else {
        Some(text)
    }
}

/// The replies of a comment.
pub open spec fn replies_of(c: JsonV) -> Seq<JsonV> {
    match c.get("replies"@) {
        Some(JsonV::Arr(r)) => r,
        _ => Seq::empty(),
    }
}

/// The records of a comment's replies that qualify, each paired with the comment.
pub open spec fn reply_records(
    aweme_id: Seq<char>,
    c: JsonV,
    text: Seq<char>,
    replies: Seq<JsonV>,
    o: ChatmlOptions,
) -> Seq<JsonV>
    decreases replies.len(),
{
    if replies.len() == 0 {
        Seq::empty()
    } else {
        let before = reply_records(aweme_id, c, text, replies.drop_last(), o);
        let r = replies.last();
        match kept_text(r, o.min_reply_digg) {
            Some(rt) => before.push(
                JsonV::Obj(
                    seq![
                        (
                            "messages"@,
                            JsonV::Arr(seq![message(o.comment_role@, text), message(o.reply_role@, rt)]),
                        ),
                        ("metadata"@, metadata_of(aweme_id, c, Some(r))),
                    ],
                ),
            ),
            None => before,
        }
    }
}

/// The records of one comment.
pub open spec fn comment_records(aweme_id: Seq<char>, c: JsonV, o: ChatmlOptions) -> Seq<JsonV> {
    match kept_text(c, o.min_comment_digg) {
        Some(text) => if replies_of(c).len() == 0 && o.include_single_comments {
            seq![
                JsonV::Obj(
                    seq![
                        ("messages"@, JsonV::Arr(seq![message(o.comment_role@, text)])),
                        ("metadata"@, metadata_of(aweme_id, c, None)),
                    ],
                ),
            ]
        } else {
            reply_records(aweme_id, c, text, replies_of(c), o)
        },
        None => Seq::empty(),
    }
}

/// The records of all comments, in order.
pub open spec fn chat_records(aweme_id: Seq<char>, comments: Seq<JsonV>, o: ChatmlOptions) -> Seq<JsonV>
    decreases comments.len(),
{
    if comments.len() == 0 {
        Seq::empty()
    } else {
        chat_records(aweme_id, comments.drop_last(), o) + comment_records(aweme_id, comments.last(), o)
    }
}

/// The comments of a crawl result.
pub open spec fn comments_of(data: JsonV) -> Seq<JsonV> {
    match data.get("comments"@) {
        Some(JsonV::Arr(c)) => c,
        _ => Seq::empty(),
    }
}

/// The like counts of every comment and reply that make a record add up
/// within `i64`.
pub open spec fn scores_fit(data: JsonV, o: ChatmlOptions) -> bool {
    forall|i: int, j: int|
        0 <= i < comments_of(data).len() && 0 <= j < replies_of(comments_of(data)[i]).len() ==> (
        kept_text(#[trigger] comments_of(data)[i], o.min_comment_digg) is Some && kept_text(
            #[trigger] replies_of(comments_of(data)[i])[j],
            o.min_reply_digg,
        ) is Some ==> i64::MIN <= digg_of(comments_of(data)[i]) + digg_of(
            replies_of(comments_of(data)[i])[j],
        ) <= i64::MAX)
}

fn metadata_exec(aweme_id: &str, c: &Json, reply: Option<&Json>) -> (r: Json)
    requires
        reply matches Some(x) ==> i64::MIN <= digg_of(c.jv()) + digg_of(x.jv()) <= i64::MAX,
    ensures
        r.jv() == metadata_of(
            aweme_id@,
            c.jv(),
            match reply {
                Some(x) => Some(x.jv()),
                None => None,
            },
        ),
{
    let cd = digg(c);
    let score: i64 = match reply {
        Some(x) => cd + digg(x),
        None => cd,
    };
    let ids = vec!["id"];
    assert(crate::stats::key_views(ids@) =~= seq!["id"@]);
    let mut es: Vec<(String, Json)> = Vec::new();
    es.push(("aweme_id".to_owned(), Json::Str(aweme_id.to_owned())));
    es.push(("comment_create_time".to_owned(), or_value_exec(c.get("create_time"), Json::Null)));
    es.push(("comment_digg_count".to_owned(), int_json_exec(cd)));
    es.push(("comment_id".to_owned(), Json::Str(first_string_exec(c, ids))));
    es.push(("comment_user".to_owned(), user_fields_exec(c.get("user"))));
    es.push(("quality_score".to_owned(), int_json_exec(score)));
    let ghost base = entries_view(es@);
    match reply {
        Some(x) => {
            let rids = vec!["id"];
            assert(crate::stats::key_views(rids@) =~= seq!["id"@]);
            es.push(("reply_create_time".to_owned(), or_value_exec(x.get("create_time"), Json::Null)));
            es.push(("reply_digg_count".to_owned(), int_json_exec(digg(x))));
            es.push(("reply_id".to_owned(), Json::Str(first_string_exec(x, rids))));
            es.push(("reply_user".to_owned(), user_fields_exec(x.get("user"))));
            es.push(("source".to_owned(), Json::Str("douyin_comment_reply".to_owned())));
        },
        None => {
            es.push(("source".to_owned(), Json::Str("douyin_comment".to_owned())));
        },
    }
    proof {
        lemma_obj_view(es);
    }
    let r = Json::Obj(es);
    assert(entries_view(es@) =~= match metadata_of(
        aweme_id@,
        c.jv(),
        match reply {
            Some(x) => Some(x.jv()),
            None => None,
        },
    ) {
        JsonV::Obj(e) => e,
        _ => Seq::empty(),
    });
    r
}

fn int_json_exec(n: i64) -> (r: Json)
    ensures
        r.jv() == int_json(n),
{
    if n >= 0 {
        Json::UInt(n as u64)
    } else {
        Json::NegInt(n)
    }
}

fn message_exec(role: &str, content: &[char]) -> (r: Json)
    ensures
        r.jv() == message(role@, content@),
{
    let c = Json::Str(string_of(content));
    let ro = Json::Str(role.to_owned());
    let ghost views = seq![("content"@, c.jv()), ("role"@, ro.jv())];
    let es = vec![("content".to_owned(), c), ("role".to_owned(), ro)];
    assert(entries_view(es@) =~= views);
    proof {
        lemma_obj_view(es);
    }
    Json::Obj(es)
}

fn kept_text_exec(c: &Json, min_digg: i64) -> (r: Option<Vec<char>>)
    ensures
        r matches Some(t) ==> kept_text(c.jv(), min_digg) == Some(t@),
        r is None ==> kept_text(c.jv(), min_digg) is None,
{
    let raw = match c.get("text") {
        Some(Json::Str(s)) => chars_of(s.as_str()),
        _ => Vec::new(),
    };
    let text = trim_chars(raw.as_slice());
    if text.len() == 0 || digg(c) < min_digg {
        None
    } else {
        Some(text)
    }
}

fn record_exec(messages: Vec<Json>, meta: Json) -> (r: Json)
    ensures
        r.jv() == JsonV::Obj(seq![("messages"@, JsonV::Arr(items_view(messages@))), ("metadata"@, meta.jv())]),
{
    proof {
        lemma_arr_view(messages);
    }
    let m = Json::Arr(messages);
    let ghost views = seq![("messages"@, m.jv()), ("metadata"@, meta.jv())];
    let es = vec![("messages".to_owned(), m), ("metadata".to_owned(), meta)];
    assert(entries_view(es@) =~= views);
    proof {
        lemma_obj_view(es);
    }
    Json::Obj(es)
}

/// Comments and their replies as chat records; see [`chat_records`].
pub fn format_chatml(data: &Json, options: &ChatmlOptions) -> (r: Vec<Json>)
    requires
        scores_fit(data.jv(), *options),
    ensures
        items_view(r@) == chat_records(text_of(data.jv().get("aweme_id"@)), comments_of(data.jv()), *options),
{
    let aweme_id: String = match data.get("aweme_id") {
        Some(Json::Str(s)) => s.clone(),
        _ => String::new(),
    };
    let ghost aid = text_of(data.jv().get("aweme_id"@));
    let ghost o = *options;
    let mut records: Vec<Json> = Vec::new();
    match data.get("comments") {
        Some(Json::Arr(comments)) => {
            proof {
                lemma_arr_view(*comments);
            }
            let ghost cv = items_view(comments@);
            assert(cv == comments_of(data.jv()));
            let mut i: usize = 0;
            assert(cv.take(0) =~= Seq::<JsonV>::empty());
            assert(items_view(records@) =~= Seq::<JsonV>::empty());
            while i < comments.len()
                invariant
                    i <= comments.len(),
                    cv == items_view(comments@),
                    cv == comments_of(data.jv()),
                    aweme_id@ == aid,
                    o == *options,
                    scores_fit(data.jv(), o),
                    items_view(records@) == chat_records(aid, cv.take(i as int), o),
                decreases comments.len() - i,
            {
                assert(cv.take(i + 1).drop_last() =~= cv.take(i as int));
                assert(cv.take(i + 1).last() == comments@[i as int].jv());
                let c = &comments[i];
                let ghost start = items_view(records@);
                match kept_text_exec(c, options.min_comment_digg) {
                    Some(text) => {
                        let (has_replies, list) = match c.get("replies") {
                            Some(Json::Arr(rs)) => (rs.len() > 0, Some(rs)),
                            _ => (false, None),
                        };
                        proof {
                            match list {
                                Some(rs) => {
                                    lemma_arr_view(*rs);
                                },
                                None => {},
                            }
                        }
                        if !has_replies && options.include_single_comments {
                            let msgs = vec![message_exec(options.comment_role.as_str(), text.as_slice())];
                            let ghost mv = items_view(msgs@);
                            assert(mv =~= seq![message(o.comment_role@, text@)]);
                            let rec = record_exec(msgs, metadata_exec(aweme_id.as_str(), c, None));
                            records.push(rec);
                            assert(items_view(records@) =~= start + comment_records(aid, cv[i as int], o));
                        } else {
                            match list {
                                Some(rs) => {
                                    let ghost rv = items_view(rs@);
                                    assert(rv == replies_of(cv[i as int]));
                                    let mut k: usize = 0;
                                    assert(rv.take(0) =~= Seq::<JsonV>::empty());
                                    assert(items_view(records@) =~= start + reply_records(aid, cv[i as int], text@, rv.take(0), o));
                                    while k < rs.len()
                                        invariant
                                            k <= rs.len(),
                                            rv == items_view(rs@),
                                            rv == replies_of(cv[i as int]),
                                            i < cv.len(),
                                            cv[i as int] == c.jv(),
                                            cv == comments_of(data.jv()),
                                            kept_text(c.jv(), o.min_comment_digg) == Some(text@),
                                            aweme_id@ == aid,
                                            o == *options,
                                            scores_fit(data.jv(), o),
                                            items_view(records@) == start + reply_records(aid, cv[i as int], text@, rv.take(k as int), o),
                                        decreases rs.len() - k,
                                    {
                                        assert(rv.take(k + 1).drop_last() =~= rv.take(k as int));
                                        assert(rv.take(k + 1).last() == rs@[k as int].jv());
                                        let r = &rs[k];
                                        match kept_text_exec(r, options.min_reply_digg) {
                                            Some(rt) => {
                                                assert(kept_text(#[trigger] comments_of(data.jv())[i as int], o.min_comment_digg) is Some);
                                                assert(kept_text(#[trigger] replies_of(comments_of(data.jv())[i as int])[k as int], o.min_reply_digg) is Some);
                                                let msgs = vec![
                                                    message_exec(options.comment_role.as_str(), text.as_slice()),
                                                    message_exec(options.reply_role.as_str(), rt.as_slice()),
                                                ];
                                                let ghost mv = items_view(msgs@);
                                                assert(mv =~= seq![message(o.comment_role@, text@), message(o.reply_role@, rt@)]);
                                                let rec = record_exec(msgs, metadata_exec(aweme_id.as_str(), c, Some(r)));
                                                let ghost b = items_view(records@);
                                                records.push(rec);
                                                assert(items_view(records@) =~= b.push(rec.jv()));
                                            },
                                            None => {},
                                        }
                                        k = k + 1;
                                    }
                                    assert(rv.take(rs.len() as int) =~= rv);
                                },
                                None => {
                                    assert(replies_of(cv[i as int]) =~= Seq::<JsonV>::empty());
                                    assert(items_view(records@) =~= start + comment_records(aid, cv[i as int], o));
                                },
                            }
                        }
                    },
                    None => {
                        assert(items_view(records@) =~= start + comment_records(aid, cv[i as int], o));
                    },
                }
                i = i + 1;
            }
            assert(cv.take(comments.len() as int) =~= cv);
        },
        _ => {
            assert(items_view(records@) =~= Seq::<JsonV>::empty());
        },
    }
    records
}

/// The like counts of comment `i` and its reply `j` add up within `i64`
/// when both make a record.
pub open spec fn pair_fits(data: JsonV, o: ChatmlOptions, i: int, j: int) -> bool {
    kept_text(comments_of(data)[i], o.min_comment_digg) is Some && kept_text(
        replies_of(comments_of(data)[i])[j],
        o.min_reply_digg,
    ) is Some ==> i64::MIN <= digg_of(comments_of(data)[i]) + digg_of(replies_of(comments_of(data)[i])[j])
        <= i64::MAX
}

/// Whether the like counts of the comments and replies that make records
/// add up within `i64`, as [`format_chatml`] needs; see [`scores_fit`].
pub fn chat_scores_fit(data: &Json, options: &ChatmlOptions) -> (r: bool)
    ensures
        r == scores_fit(data.jv(), *options),
{
    let ghost o = *options;
    let ghost cs = comments_of(data.jv());
    match data.get("comments") {
        Some(Json::Arr(comments)) => {
            proof {
                lemma_arr_view(*comments);
            }
            assert(items_view(comments@) == cs);
            let mut i: usize = 0;
            while i < comments.len()
                invariant
                    i <= comments.len(),
                    items_view(comments@) == cs,
                    cs == comments_of(data.jv()),
                    o == *options,
                    forall|a: int, b: int|
                        0 <= a < i && 0 <= b < replies_of(cs[a]).len() ==> pair_fits(data.jv(), o, a, b),
                decreases comments.len() - i,
            {
                let c = &comments[i];
                assert(c.jv() == cs[i as int]);
                if kept_text_exec(c, options.min_comment_digg).is_some() {
                    match c.get("replies") {
                        Some(Json::Arr(rs)) => {
                            proof {
                                lemma_arr_view(*rs);
                            }
                            assert(items_view(rs@) == replies_of(cs[i as int]));
                            let cd = digg(c);
                            let mut k: usize = 0;
                            while k < rs.len()
                                invariant
                                    k <= rs.len(),
                                    i < comments.len(),
                                    items_view(comments@) == cs,
                                    cs == comments_of(data.jv()),
                                    o == *options,
                                    c.jv() == cs[i as int],
                                    kept_text(cs[i as int], o.min_comment_digg) is Some,
                                    cd == digg_of(cs[i as int]),
                                    items_view(rs@) == replies_of(cs[i as int]),
                                    forall|b: int| 0 <= b < k ==> pair_fits(data.jv(), o, i as int, b),
                                decreases rs.len() - k,
                            {
                                let r = &rs[k];
                                assert(r.jv() == replies_of(cs[i as int])[k as int]);
                                if kept_text_exec(r, options.min_reply_digg).is_some() {
                                    let rd = digg(r);
                                    if cd.checked_add(rd).is_none() {
                                        assert(!pair_fits(data.jv(), o, i as int, k as int));
                                        assert(kept_text(comments_of(data.jv())[i as int], o.min_comment_digg) is Some);
                                        assert(kept_text(
                                            replies_of(comments_of(data.jv())[i as int])[k as int],
                                            o.min_reply_digg,
                                        ) is Some);
                                        return false;
                                    }
                                }
                                k = k + 1;
                            }
                        },
                        _ => {
                            assert(replies_of(cs[i as int]) =~= Seq::<JsonV>::empty());
                        },
                    }
                }
                i = i + 1;
            }
            assert forall|a: int, b: int|
                0 <= a < comments_of(data.jv()).len() && 0 <= b < replies_of(comments_of(data.jv())[a]).len() implies (
                kept_text(#[trigger] comments_of(data.jv())[a], o.min_comment_digg) is Some && kept_text(
                    #[trigger] replies_of(comments_of(data.jv())[a])[b],
                    o.min_reply_digg,
                ) is Some ==> i64::MIN <= digg_of(comments_of(data.jv())[a]) + digg_of(
                    replies_of(comments_of(data.jv())[a])[b],
                ) <= i64::MAX) by {
                assert(pair_fits(data.jv(), o, a, b));
            }
            true
        },
        _ => true,
    }
}

/// The query of a page of comments on a work.
pub fn comment_page_params(aweme_id: &str, cursor: i64, count: usize) -> (r: Vec<(String, String)>)
    ensures
        crate::cookie::string_pairs_view(r@) == seq![
            ("aweme_id"@, aweme_id@),
            ("cursor"@, crate::text::signed_decimal(cursor as int)),
            ("count"@, crate::text::decimal(count as nat)),
            ("item_type"@, "0"@),
        ],
{
    let v = vec![
        ("aweme_id".to_owned(), aweme_id.to_owned()),
        ("cursor".to_owned(), string_of(crate::text::signed_decimal_chars(cursor).as_slice())),
        ("count".to_owned(), string_of(crate::text::decimal_chars(count as u64).as_slice())),
        ("item_type".to_owned(), "0".to_owned()),
    ];
    assert(crate::cookie::string_pairs_view(v@) =~= seq![
        ("aweme_id"@, aweme_id@),
        ("cursor"@, crate::text::signed_decimal(cursor as int)),
        ("count"@, crate::text::decimal(count as nat)),
        ("item_type"@, "0"@),
    ]);
    v
}

/// The query of a page of replies to a comment.
pub fn reply_page_params(aweme_id: &str, comment_id: &str, cursor: i64, count: usize) -> (r: Vec<
    (String, String),
>)
    ensures
        crate::cookie::string_pairs_view(r@) == seq![
            ("item_id"@, aweme_id@),
            ("comment_id"@, comment_id@),
            ("cursor"@, crate::text::signed_decimal(cursor as int)),
            ("count"@, crate::text::decimal(count as nat)),
            ("item_type"@, "0"@),
        ],
{
    let v = vec![
        ("item_id".to_owned(), aweme_id.to_owned()),
        ("comment_id".to_owned(), comment_id.to_owned()),
        ("cursor".to_owned(), string_of(crate::text::signed_decimal_chars(cursor).as_slice())),
        ("count".to_owned(), string_of(crate::text::decimal_chars(count as u64).as_slice())),
        ("item_type".to_owned(), "0".to_owned()),
    ];
    assert(crate::cookie::string_pairs_view(v@) =~= seq![
        ("item_id"@, aweme_id@),
        ("comment_id"@, comment_id@),
        ("cursor"@, crate::text::signed_decimal(cursor as int)),
        ("count"@, crate::text::decimal(count as nat)),
        ("item_type"@, "0"@),
    ]);
    v
}

/// The comments (or replies) listed on a page.
pub open spec fn page_list(page: JsonV) -> Seq<JsonV> {
    match page.get("comments"@) {
        Some(JsonV::Arr(v)) => v,
        _ => Seq::empty(),
    }
}

/// How many listed comments a page gives when `taken` were taken before: all
/// of them without a limit, else up to the one that reaches the limit.
pub open spec fn accepted_count(len: nat, taken: nat, limit: nat) -> nat {
    if limit == 0 {
        len
    } else if taken >= limit {
        if len > 0 {
            1
        } else {
            0
        }
    } else if len < limit - taken {
        len
    } else {
        (limit - taken) as nat
    }
}

/// The state of a paged comment (or reply) crawl between requests.
pub struct CommentPager {
    /// Most comments to take; 0 means no limit.
    pub limit: usize,
    /// Comments taken so far.
    pub taken: usize,
    pub cursor: i64,
    pub has_more: bool,
    /// An empty page ended the crawl.
    pub finished: bool,
}

impl CommentPager {
    /// A crawl before its first page.
    pub fn new(limit: usize) -> (r: CommentPager)
        ensures
            r.limit == limit,
            r.taken == 0,
            r.cursor == 0,
            r.has_more,
            !r.finished,
    {
        CommentPager { limit, taken: 0, cursor: 0, has_more: true, finished: false }
    }

    /// Another page is to be requested.
    pub fn wants_page(&self) -> (r: bool)
        ensures
            r == (!self.finished && self.has_more && !(self.limit > 0 && self.taken >= self.limit)),
    {
        !self.finished && self.has_more && !reached_limit(self.taken, self.limit)
    }

    /// Takes in a page: returns the normalized comments it gives (see
    /// [`accepted_count`]) and moves on to its cursor; an empty page ends the crawl.
    pub fn on_page(&mut self, page: &Json) -> (r: Vec<Json>)
        ensures
            final(self).limit == old(self).limit,
            page_list(page.jv()).len() == 0 ==> {
                &&& r@.len() == 0
                &&& final(self).finished
                &&& final(self).taken == old(self).taken
                &&& final(self).cursor == old(self).cursor
                &&& final(self).has_more == old(self).has_more
            },
            page_list(page.jv()).len() > 0 ==> {
                let n = accepted_count(
                    page_list(page.jv()).len(),
                    old(self).taken as nat,
                    old(self).limit as nat,
                );
                &&& items_view(r@) == page_list(page.jv()).take(n as int).map_values(
                    |c: JsonV| normalized(c),
                )
                &&& final(self).taken as int == if old(self).taken + n > usize::MAX {
                    usize::MAX as int
                } else {
                    old(self).taken + n
                }
                &&& final(self).finished == old(self).finished
                &&& final(self).cursor == (match page.jv().get("cursor"@) {
                    Some(c) => match c.as_i64() {
                        Some(k) => k,
                        None => 0,
                    },
                    None => 0,
                })
                &&& final(self).has_more == flag_set(page.jv().get("has_more"@))
            },
    {
        let values = match page.get("comments") {
            Some(Json::Arr(v)) => {
                proof {
                    lemma_arr_view(*v);
                }
                v
            },
            _ => {
                self.finished = true;
                return Vec::new();
            },
        };
        if values.len() == 0 {
            self.finished = true;
            return Vec::new();
        }
        let ghost pv = items_view(values@);
        let len = values.len();
        let n: usize = if self.limit == 0 {
            len
        } else if self.taken >= self.limit {
            1
        } else if len < self.limit - self.taken {
            len
        } else {
            self.limit - self.taken
        };
        assert(n == accepted_count(pv.len(), self.taken as nat, self.limit as nat));
        let mut out: Vec<Json> = Vec::new();
        let mut i: usize = 0;
        assert(pv.take(0).map_values(|c: JsonV| normalized(c)) =~= Seq::<JsonV>::empty());
        while i < n
            invariant
                i <= n,
                n <= values.len(),
                pv == items_view(values@),
                items_view(out@) == pv.take(i as int).map_values(|c: JsonV| normalized(c)),
            decreases n - i,
        {
            let c = normalize_comment(&values[i]);
            let ghost b = items_view(out@);
            out.push(c);
            assert(items_view(out@) =~= b.push(normalized(pv[i as int])));
            assert(pv.take(i + 1).map_values(|c: JsonV| normalized(c)) =~= pv.take(i as int).map_values(
                |c: JsonV| normalized(c),
            ).push(normalized(pv[i as int])));
            i = i + 1;
        }
        self.taken = self.taken.saturating_add(n);
        self.cursor = match page.get("cursor") {
            Some(c) => match c.as_i64() {
                Some(k) => k,
                None => 0,
            },
            None => 0,
        };
        self.has_more = truthy(page.get("has_more"));
        out
    }
}

/// The crawl result: the work and its comments.
pub fn comments_document(aweme_id: &str, comments: Vec<Json>) -> (r: Json)
    ensures
        r.jv() == JsonV::Obj(
            seq![("aweme_id"@, JsonV::Str(aweme_id@)), ("comments"@, JsonV::Arr(items_view(comments@)))],
        ),
{
    proof {
        lemma_arr_view(comments);
    }
    let list = Json::Arr(comments);
    let id = Json::Str(aweme_id.to_owned());
    let ghost views = seq![("aweme_id"@, id.jv()), ("comments"@, list.jv())];
    let es = vec![("aweme_id".to_owned(), id), ("comments".to_owned(), list)];
    assert(entries_view(es@) =~= views);
    proof {
        lemma_obj_view(es);
    }
    Json::Obj(es)
}

/// A comment with its replies attached under `replies`.
pub fn attach_replies(comment: Json, replies: Vec<Json>) -> (r: Json)
    requires
        comment.jv() is Obj,
    ensures
        r.jv() == JsonV::Obj(
            set_entry(comment.jv()->Obj_0, "replies"@, JsonV::Arr(items_view(replies@))),
        ),
{
    match comment {
        Json::Obj(es) => {
            proof {
                lemma_obj_view(es);
                lemma_arr_view(replies);
            }
            let mut es = es;
            insert_str(&mut es, "replies", Json::Arr(replies));
            proof {
                lemma_obj_view(es);
            }
            Json::Obj(es)
        },
        _ => comment,
    }
}

} // verus!
