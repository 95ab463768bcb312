//! Web crawler decisions: crawl types, targets, request parameters, file names
//! and the mapping of web API records to saved metadata.
use vstd::prelude::*;
use crate::json::{
    entries_view, insert_entry, insert_str, items_view, json_text, lemma_arr_view, lemma_obj_view,
    remove_entry, remove_key, set_entry, to_json_string, Json, JsonV,
};
use crate::text::{
    append_chars, chars_of, concat, collapse_whitespace, collapse_ws, find, find_chars, is_control,
    is_ctrl, replace_all, replace_chars, string_of, trim, trim_chars,
};

verus! {

broadcast use vstd::string::group_string_axioms;

/// What a crawl collects.
#[derive(Clone, Copy, Debug, PartialEq, Eq, Structural)]
pub enum CrawlType {
    Post,
    Favorite,
    Music,
    Hashtag,
    Search,
    Following,
    Follower,
    Collection,
    Mix,
    Aweme,
}

impl CrawlType {
    /// The command-line name of a crawl type.
    pub open spec fn name(self) -> Seq<char> {
        match self {
            CrawlType::Post => "post"@,
            CrawlType::Favorite => "favorite"@,
            CrawlType::Music => "music"@,
            CrawlType::Hashtag => "hashtag"@,
            CrawlType::Search => "search"@,
            CrawlType::Following => "following"@,
            CrawlType::Follower => "follower"@,
            CrawlType::Collection => "collection"@,
            CrawlType::Mix => "mix"@,
            CrawlType::Aweme => "aweme"@,
        }
    }

    /// The command-line name of the crawl type.
    pub fn as_str(self) -> (r: &'static str)
        ensures
            r@ == self.name(),
    {
        match self {
            CrawlType::Post => "post",
            CrawlType::Favorite => "favorite",
            CrawlType::Music => "music",
            CrawlType::Hashtag => "hashtag",
            CrawlType::Search => "search",
            CrawlType::Following => "following",
            CrawlType::Follower => "follower",
            CrawlType::Collection => "collection",
            CrawlType::Mix => "mix",
            CrawlType::Aweme => "aweme",
        }
    }

    /// The crawl lists users rather than works.
    pub fn is_user_list(self) -> (r: bool)
        ensures
            r == (self == CrawlType::Following || self == CrawlType::Follower),
    {
        match self {
            CrawlType::Following | CrawlType::Follower => true,
            _ => false,
        }
    }

    /// The crawl reads the logged-in account itself when no target is given.
    pub fn is_account_only(self) -> (r: bool)
        ensures
            r == (self == CrawlType::Favorite || self == CrawlType::Collection || self
                == CrawlType::Following || self == CrawlType::Follower),
    {
        match self {
            CrawlType::Favorite | CrawlType::Collection | CrawlType::Following
            | CrawlType::Follower => true,
            _ => false,
        }
    }
}

/// The crawl options of the command line.
pub struct CrawlArgs {
    /// Targets: work/account/topic/music URLs, IDs, search keywords or target files.
    pub urls: Vec<String>,
    /// Most results to collect; 0 means no limit.
    pub limit: usize,
    /// Collect metadata only.
    pub no_download: bool,
    pub crawl_type: CrawlType,
    /// Root directory of downloads and data files.
    pub output_path: String,
    /// Cookie for this run; the saved cookie otherwise.
    pub cookie: Option<String>,
    /// Search order: 0 general, 1 most liked, 2 newest.
    pub sort_type: Option<String>,
    /// Publish time filter in days: 0, 1, 7 or 180.
    pub publish_time: Option<String>,
    /// Duration filter: empty, 0-1, 1-5 or 5-10000.
    pub filter_duration: Option<String>,
    /// Save the title of each work.
    pub download_title: bool,
    /// Download the cover of each work.
    pub download_cover: bool,
}

impl CrawlArgs {
    /// Some crawl option differs from its default, so the crawler runs; the
    /// caller tells whether `output_path` is the default download root.
    pub fn should_run(&self, output_path_is_default: bool) -> (r: bool)
        ensures
            r == (self.urls@.len() != 0 || self.limit != 0 || self.no_download || self.crawl_type
                != CrawlType::Post || !output_path_is_default || self.sort_type is Some
                || self.publish_time is Some || self.filter_duration is Some
                || self.download_title || self.download_cover),
    {
        self.urls.len() != 0 || self.limit != 0 || self.no_download || !matches!(
            self.crawl_type,
            CrawlType::Post
        ) || !output_path_is_default || self.sort_type.is_some() || self.publish_time.is_some()
            || self.filter_duration.is_some() || self.download_title || self.download_cover
    }
}

/// A positive limit has been reached.
pub fn limit_reached(length: usize, limit: usize) -> (r: bool)
    ensures
        r == (limit > 0 && length >= limit),
{
    limit > 0 && length >= limit
}

/// Characters that cannot stand in a file name on some platform.
pub open spec fn is_forbidden(c: char) -> bool {
    c == '<' || c == '>' || c == ':' || c == '"' || c == '/' || c == '\\' || c == '|' || c == '?'
        || c == '*' || is_ctrl(c)
}

/// `s` without the characters that cannot stand in a file name.
pub open spec fn drop_forbidden(s: Seq<char>) -> Seq<char>
    decreases s.len(),
{
    if s.len() == 0 {
        s
    } else if is_forbidden(s.last()) {
        drop_forbidden(s.drop_last())
    } else {
        drop_forbidden(s.drop_last()).push(s.last())
    }
}

/// The number of bytes of a character in UTF-8.
pub open spec fn utf8_len(c: char) -> nat {
    if c <= '\u{7f}' {
        1
    } else if c <= '\u{7ff}' {
        2
    } else if c <= '\u{ffff}' {
        3
    } else {
        4
    }
}

/// The number of leading characters of `s` whose UTF-8 encoding fits in `n` bytes.
pub open spec fn fit_len(s: Seq<char>, n: nat) -> nat
    decreases s.len(),
{
    if s.len() == 0 || utf8_len(s[0]) > n {
        0
    } else {
        1 + fit_len(s.drop_first(), (n - utf8_len(s[0])) as nat)
    }
}

/// The file-name form of a title: trimmed, without forbidden or control
/// characters, whitespace runs collapsed, `无标题` when nothing is left, and
/// cut at a character boundary to at most `max_bytes` UTF-8 bytes, a cut text
/// ending in `...`.
pub open spec fn sanitized(text: Seq<char>, max_bytes: nat) -> Seq<char> {
    let collapsed = collapse_ws(drop_forbidden(trim(text)));
    let source = if collapsed.len() == 0 {
        "无标题"@
    } else {
        collapsed
    };
    if fit_len(source, max_bytes) == source.len() {
        source
    } else {
        let end: nat = if max_bytes >= 3 {
            (max_bytes - 3) as nat
        } else {
            0
        };
        trim(source.take(fit_len(source, end) as int)) + "..."@
    }
}

pub(crate) fn utf8_len_exec(c: char) -> (r: usize)
    ensures
        r == utf8_len(c),
{
    if c <= '\u{7f}' {
        1
    } else if c <= '\u{7ff}' {
        2
    } else if c <= '\u{ffff}' {
        3
    } else {
        4
    }
}

fn fit_len_exec(s: &[char], n: usize) -> (r: usize)
    ensures
        r == fit_len(s@, n as nat),
        r <= s.len(),
{
    let mut k: usize = 0;
    let mut left: usize = n;
    assert(s@.skip(0) =~= s@);
    while k < s.len() && utf8_len_exec(s[k]) <= left
        invariant
            k <= s.len(),
            left <= n,
            fit_len(s@, n as nat) == k + fit_len(s@.skip(k as int), left as nat),
        decreases s.len() - k,
    {
        assert(s@.skip(k as int)[0] == s@[k as int]);
        assert(s@.skip(k as int).drop_first() =~= s@.skip(k + 1));
        left = left - utf8_len_exec(s[k]);
        k = k + 1;
    }
    if k < s.len() {
        assert(s@.skip(k as int)[0] == s@[k as int]);
    }
    k
}

fn drop_forbidden_exec(s: &[char]) -> (r: Vec<char>)
    ensures
        r@ == drop_forbidden(s@),
{
    let mut out: Vec<char> = Vec::new();
    let mut i: usize = 0;
    while i < s.len()
        invariant
            i <= s.len(),
            out@ == drop_forbidden(s@.take(i as int)),
        decreases s.len() - i,
    {
        let c = s[i];
        assert(s@.take(i + 1).drop_last() =~= s@.take(i as int));
        if !(c == '<' || c == '>' || c == ':' || c == '"' || c == '/' || c == '\\' || c == '|' || c
            == '?' || c == '*' || is_control(c)) {
            out.push(c);
        }
        i = i + 1;
    }
    assert(s@.take(s.len() as int) =~= s@);
    out
}

/// The file-name form of a title; see [`sanitized`].
pub fn sanitize_chars(text: &[char], max_bytes: usize) -> (r: Vec<char>)
    ensures
        r@ == sanitized(text@, max_bytes as nat),
{
    let trimmed = trim_chars(text);
    let filtered = drop_forbidden_exec(trimmed.as_slice());
    let collapsed = collapse_whitespace(filtered.as_slice());
    let source = if collapsed.len() == 0 {
        chars_of("无标题")
    } else {
        collapsed
    };
    if fit_len_exec(source.as_slice(), max_bytes) == source.len() {
        return source;
    }
    let end = if max_bytes >= 3 {
        max_bytes - 3
    } else {
        0
    };
    let k = fit_len_exec(source.as_slice(), end);
    let cut = crate::text::slice_chars(source.as_slice(), 0, k);
    assert(cut@ =~= source@.take(k as int));
    let mut out = trim_chars(cut.as_slice());
    let dots = chars_of("...");
    append_chars(&mut out, dots.as_slice());
    out
}

/// The file-name form of a title; see [`sanitized`].
pub fn sanitize_filename(text: &str, max_bytes: usize) -> (r: String)
    ensures
        r@ == sanitized(text@, max_bytes as nat),
{
    string_of(sanitize_chars(chars_of(text).as_slice(), max_bytes).as_slice())
}

/// The text between `marker` and the next `term` after it, when non-empty,
/// with `\u002F` escapes turned into `/`.
pub open spec fn value_after(text: Seq<char>, marker: Seq<char>, term: Seq<char>) -> Option<
    Seq<char>,
> {
    match find(text, marker) {
        Some(p) => {
            let tail = text.skip(p + marker.len());
            match find(tail, term) {
                Some(e) => if e > 0 {
                    Some(replace_all(tail.take(e), "\\u002F"@, "/"@))
                } else {
                    None
                },
                None => None,
            }
        },
        None => None,
    }
}

/// The value of `key` in a page that embeds JSON, first in its escaped form
/// `key\":\"value\"`, then in its plain form `"key":"value"`.
pub open spec fn escaped_value(text: Seq<char>, key: Seq<char>) -> Option<Seq<char>> {
    match value_after(text, key + "\\\":\\\""@, "\\\""@) {
        Some(v) => Some(v),
        None => value_after(text, "\""@ + key + "\":\""@, "\""@),
    }
}

fn value_after_exec(text: &[char], marker: &[char], term: &[char]) -> (r: Option<Vec<char>>)
    requires
        term.len() > 0,
    ensures
        r matches Some(v) ==> value_after(text@, marker@, term@) == Some(v@),
        r is None ==> value_after(text@, marker@, term@) is None,
{
    let p = match find_chars(text, marker) {
        Some(p) => p,
        None => return None,
    };
    proof {
        crate::text::lemma_find_facts(text@, marker@);
        assert(crate::text::occurs_at(text@, marker@, p as int));
    }
    assert(p + marker.len() <= text.len());
    let tail = crate::text::slice_chars(text, p + marker.len(), text.len());
    assert(tail@ =~= text@.skip(p + marker@.len()));
    let e = match find_chars(tail.as_slice(), term) {
        Some(e) => e,
        None => return None,
    };
    if e == 0 {
        return None;
    }
    proof {
        crate::text::lemma_find_facts(tail@, term@);
    }
    let value = crate::text::slice_chars(tail.as_slice(), 0, e);
    assert(value@ =~= tail@.take(e as int));
    let esc = chars_of("\\u002F");
    let slash = chars_of("/");
    proof {
        reveal_strlit("\\u002F");
    }
    Some(replace_chars(value.as_slice(), esc.as_slice(), slash.as_slice()))
}

/// The value of `key` in a page that embeds JSON; see [`escaped_value`].
pub fn extract_escaped_value(text: &str, key: &str) -> (r: Option<String>)
    ensures
        r matches Some(v) ==> escaped_value(text@, key@) == Some(v@),
        r is None ==> escaped_value(text@, key@) is None,
{
    let t = chars_of(text);
    let k = chars_of(key);
    let escaped_marker = concat(k.as_slice(), chars_of("\\\":\\\"").as_slice());
    let escaped_term = chars_of("\\\"");
    proof {
        reveal_strlit("\\\"");
    }
    if let Some(v) = value_after_exec(t.as_slice(), escaped_marker.as_slice(), escaped_term.as_slice()) {
        return Some(string_of(v.as_slice()));
    }
    let plain_marker = concat(
        concat(chars_of("\"").as_slice(), k.as_slice()).as_slice(),
        chars_of("\":\"").as_slice(),
    );
    let plain_term = chars_of("\"");
    proof {
        reveal_strlit("\"");
    }
    match value_after_exec(t.as_slice(), plain_marker.as_slice(), plain_term.as_slice()) {
        Some(v) => Some(string_of(v.as_slice())),
        None => None,
    }
}

/// `value_i64` of the crawler: an integer, or a string holding a decimal `i64`.
pub open spec fn int_of(v: JsonV) -> Option<i64> {
    match v.as_i64() {
        Some(n) => Some(n),
        None => match v.as_str() {
            Some(s) => crate::text::parse_i64_spec(s),
            None => None,
        },
    }
}

/// Executable form of [`int_of`].
pub fn value_i64(v: &Json) -> (r: Option<i64>)
    ensures
        r == int_of(v.jv()),
{
    match v.as_i64() {
        Some(n) => Some(n),
        None => match v.as_str() {
            Some(s) => crate::text::parse_i64(chars_of(s.as_str()).as_slice()),
            None => None,
        },
    }
}

/// A present flag is true: `true`, or an integer (or integer text) other than 0.
pub open spec fn is_truthy(v: Option<JsonV>) -> bool {
    match v {
        Some(x) => match x.as_bool() {
            Some(b) => b,
            None => match int_of(x) {
                Some(n) => n != 0,
                None => false,
            },
        },
        None => false,
    }
}

/// Executable form of [`is_truthy`].
pub fn truthy(v: Option<&Json>) -> (r: bool)
    ensures
        r == is_truthy(match v {
            Some(x) => Some(x.jv()),
            None => None,
        }),
{
    match v {
        Some(x) => match x.as_bool() {
            Some(b) => b,
            None => match value_i64(x) {
                Some(n) => n != 0,
                None => false,
            },
        },
        None => false,
    }
}

/// The value under `key` of an optional value.
pub open spec fn opt_get(v: Option<JsonV>, key: Seq<char>) -> Option<JsonV> {
    match v {
        Some(x) => x.get(key),
        None => None,
    }
}

/// The value under the first of two keys that is present.
pub open spec fn alias2(v: JsonV, a: Seq<char>, b: Seq<char>) -> Option<JsonV> {
    match v.get(a) {
        Some(x) => Some(x),
        None => v.get(b),
    }
}

/// The last string of an array value.
pub open spec fn last_url(v: Option<JsonV>) -> Option<Seq<char>> {
    match v {
        Some(x) => match x.as_arr() {
            Some(items) => if items.len() > 0 {
                items.last().as_str()
            } else {
                None
            },
            None => None,
        },
        None => None,
    }
}

/// The string, or the empty string.
pub open spec fn or_empty(s: Option<Seq<char>>) -> Seq<char> {
    match s {
        Some(t) => t,
        None => Seq::empty(),
    }
}

/// The string under `key`, or the empty string.
pub open spec fn string_field(v: JsonV, key: Seq<char>) -> Seq<char> {
    or_empty(v.get_str(key))
}

pub(crate) fn opt_get_exec<'a>(v: Option<&'a Json>, key: &str) -> (r: Option<&'a Json>)
    ensures
        r matches Some(x) ==> opt_get(
            match v {
                Some(y) => Some(y.jv()),
                None => None,
            },
            key@,
        ) == Some(x.jv()),
        r is None ==> opt_get(
            match v {
                Some(y) => Some(y.jv()),
                None => None,
            },
            key@,
        ) is None,
{
    match v {
        Some(x) => x.get(key),
        None => None,
    }
}

pub(crate) fn alias2_exec<'a>(v: &'a Json, a: &str, b: &str) -> (r: Option<&'a Json>)
    ensures
        r matches Some(x) ==> alias2(v.jv(), a@, b@) == Some(x.jv()),
        r is None ==> alias2(v.jv(), a@, b@) is None,
{
    match v.get(a) {
        Some(x) => Some(x),
        None => v.get(b),
    }
}

pub(crate) fn last_url_exec(v: Option<&Json>) -> (r: Option<Vec<char>>)
    ensures
        r matches Some(s) ==> last_url(
            match v {
                Some(y) => Some(y.jv()),
                None => None,
            },
        ) == Some(s@),
        r is None ==> last_url(
            match v {
                Some(y) => Some(y.jv()),
                None => None,
            },
        ) is None,
{
    match v {
        Some(x) => match x.as_array() {
            Some(items) => if items.len() > 0 {
                match items[items.len() - 1].as_str() {
                    Some(s) => Some(chars_of(s.as_str())),
                    None => None,
                }
            } else {
                None
            },
            None => None,
        },
        None => None,
    }
}

pub(crate) fn string_field_exec(v: &Json, key: &str) -> (r: Vec<char>)
    ensures
        r@ == string_field(v.jv(), key@),
{
    match v.get(key) {
        Some(x) => match x.as_str() {
            Some(s) => chars_of(s.as_str()),
            None => Vec::new(),
        },
        None => Vec::new(),
    }
}

/// The keys of a user record copied as they are when present and not null.
pub open spec fn user_keys() -> Seq<Seq<char>> {
    seq![
        "sec_uid"@,
        "uid"@,
        "short_id"@,
        "unique_id"@,
        "unique_id_modify_time"@,
        "aweme_count"@,
        "favoriting_count"@,
        "follower_count"@,
        "following_count"@,
        "constellation"@,
        "create_time"@,
        "enterprise_verify_reason"@,
        "is_gov_media_vip"@,
        "live_status"@,
        "total_favorited"@,
        "share_qrcode_uri"@,
    ]
}

/// Copies the entries of `keys` (those present and not null) from `item`.
pub open spec fn copy_present(item: JsonV, es: Seq<(Seq<char>, JsonV)>, keys: Seq<Seq<char>>) -> Seq<
    (Seq<char>, JsonV),
>
    decreases keys.len(),
{
    if keys.len() == 0 {
        es
    } else {
        let before = copy_present(item, es, keys.drop_last());
        match item.get(keys.last()) {
            Some(v) => if v != JsonV::Null {
                set_entry(before, keys.last(), v)
            } else {
                before
            },
            None => before,
        }
    }
}

/// The text of a value as the crawler prints it: a string as it is, anything
/// else as JSON.
pub open spec fn value_text(v: JsonV) -> Seq<char> {
    match v {
        JsonV::Str(s) => s,
        _ => json_text(v),
    }
}

pub(crate) fn value_text_exec(v: &Json) -> (r: Vec<char>)
    ensures
        r@ == value_text(v.jv()),
{
    match v {
        Json::Str(s) => chars_of(s.as_str()),
        _ => chars_of(to_json_string(v).as_str()),
    }
}

/// The saved record of a user in a following/follower list.
pub open spec fn user_record(item: JsonV) -> JsonV {
    let e0 = set_entry(
        Seq::empty(),
        "nickname"@,
        JsonV::Str(sanitized(string_field(item, "nickname"@), 100)),
    );
    let e1 = set_entry(
        e0,
        "signature"@,
        JsonV::Str(sanitized(string_field(item, "signature"@), 100)),
    );
    let avatar = match opt_get(item.get("avatar_thumb"@), "url_list"@) {
        Some(JsonV::Arr(urls)) => if urls.len() > 0 {
            or_empty(urls[0].as_str())
        } else {
            Seq::empty()
        },
        _ => Seq::empty(),
    };
    let e2 = set_entry(e1, "avatar"@, JsonV::Str(avatar));
    let e3 = copy_present(item, e2, user_keys());
    let e4 = match item.get("room_id"@) {
        Some(room) => if room != JsonV::Null {
            let id = value_text(room);
            set_entry(
                set_entry(e3, "live_room_id"@, room),
                "live_room_url"@,
                JsonV::Arr(
                    seq![
                        JsonV::Str("http://pull-flv-f26.douyincdn.com/media/stream-"@ + id + ".flv"@),
                        JsonV::Str("http://pull-hls-f26.douyincdn.com/media/stream-"@ + id + ".m3u8"@),
                    ],
                ),
            )
        } else {
            e3
        },
        None => e3,
    };
    let musician_count = match opt_get(item.get("original_musician"@), "music_count"@) {
        Some(v) => match int_of(v) {
            Some(n) => n,
            None => 0,
        },
        None => 0,
    };
    let e5 = if musician_count > 0 {
        set_entry(e4, "original_musician"@, item.get("original_musician"@).unwrap())
    } else {
        e4
    };
    JsonV::Obj(e5)
}

fn first_url(v: Option<&Json>) -> (r: Vec<char>)
    ensures
        r@ == match v {
            Some(x) => match x.jv() {
                JsonV::Arr(urls) => if urls.len() > 0 {
                    or_empty(urls[0].as_str())
                } else {
                    Seq::empty()
                },
                _ => Seq::empty(),
            },
            None => Seq::<char>::empty(),
        },
{
    match v {
        Some(x) => match x {
            Json::Arr(urls) => {
                proof {
                    lemma_arr_view(*urls);
                }
                if urls.len() > 0 {
                    match urls[0].as_str() {
                        Some(s) => chars_of(s.as_str()),
                        None => Vec::new(),
                    }
                } else {
                    Vec::new()
                }
            },
            _ => Vec::new(),
        },
        None => Vec::new(),
    }
}

/// The saved record of a user in a following/follower list.
pub fn parse_user(item: &Json) -> (r: Json)
    ensures
        r.jv() == user_record(item.jv()),
{
    let mut out: Vec<(String, Json)> = Vec::new();
    let nickname = sanitize_chars(string_field_exec(item, "nickname").as_slice(), 100);
    insert_str(&mut out, "nickname", Json::from_chars(nickname.as_slice()));
    let signature = sanitize_chars(string_field_exec(item, "signature").as_slice(), 100);
    insert_str(&mut out, "signature", Json::from_chars(signature.as_slice()));
    let avatar = first_url(opt_get_exec(item.get("avatar_thumb"), "url_list"));
    insert_str(&mut out, "avatar", Json::from_chars(avatar.as_slice()));
    let keys = vec![
        "sec_uid",
        "uid",
        "short_id",
        "unique_id",
        "unique_id_modify_time",
        "aweme_count",
        "favoriting_count",
        "follower_count",
        "following_count",
        "constellation",
        "create_time",
        "enterprise_verify_reason",
        "is_gov_media_vip",
        "live_status",
        "total_favorited",
        "share_qrcode_uri",
    ];
    let ghost e2 = entries_view(out@);
    let ghost kv = user_keys();
    assert(keys@.len() == kv.len());
    assert(forall|j: int| 0 <= j < kv.len() ==> (#[trigger] keys@[j])@ == kv[j]);
    let mut i: usize = 0;
    assert(kv.take(0) =~= Seq::<Seq<char>>::empty());
    while i < keys.len()
        invariant
            i <= keys.len(),
            keys@.len() == kv.len(),
            forall|j: int| 0 <= j < kv.len() ==> (#[trigger] keys@[j])@ == kv[j],
            entries_view(out@) == copy_present(item.jv(), e2, kv.take(i as int)),
        decreases keys.len() - i,
    {
        assert(kv.take(i + 1).drop_last() =~= kv.take(i as int));
        assert(kv.take(i + 1).last() == keys@[i as int]@);
        match item.get(keys[i]) {
            Some(v) => {
                if !v.is_null() {
                    let key_chars = chars_of(keys[i]);
                    insert_entry(&mut out, key_chars.as_slice(), v.duplicate());
                }
            },
            None => {},
        }
        i = i + 1;
    }
    assert(kv.take(keys.len() as int) =~= kv);
    match item.get("room_id") {
        Some(room) => {
            if !room.is_null() {
                let id = value_text_exec(room);
                insert_str(&mut out, "live_room_id", room.duplicate());
                let flv = concat(
                    concat(
                        chars_of("http://pull-flv-f26.douyincdn.com/media/stream-").as_slice(),
                        id.as_slice(),
                    ).as_slice(),
                    chars_of(".flv").as_slice(),
                );
                let hls = concat(
                    concat(
                        chars_of("http://pull-hls-f26.douyincdn.com/media/stream-").as_slice(),
                        id.as_slice(),
                    ).as_slice(),
                    chars_of(".m3u8").as_slice(),
                );
                let urls = vec![Json::from_chars(flv.as_slice()), Json::from_chars(hls.as_slice())];
                proof {
                    lemma_arr_view(urls);
                    assert(crate::json::items_view(urls@) =~= seq![
                        JsonV::Str(flv@),
                        JsonV::Str(hls@),
                    ]);
                }
                insert_str(&mut out, "live_room_url", Json::Arr(urls));
            }
        },
        None => {},
    }
    let musician = item.get("original_musician");
    let count = match opt_get_exec(musician, "music_count") {
        Some(v) => match value_i64(v) {
            Some(n) => n,
            None => 0,
        },
        None => 0,
    };
    if count > 0 {
        match musician {
            Some(m) => insert_str(&mut out, "original_musician", m.duplicate()),
            None => {},
        }
    }
    proof {
        lemma_obj_view(out);
    }
    Json::Obj(out)
}

/// The characters of each string slice.
pub open spec fn strs_view(v: Seq<&str>) -> Seq<Seq<char>> {
    Seq::new(v.len(), |i: int| v[i]@)
}

/// The value under the first of `keys` that is present.
pub open spec fn first_present(src: JsonV, keys: Seq<Seq<char>>) -> Option<JsonV>
    decreases keys.len(),
{
    if keys.len() == 0 {
        None
    } else {
        match src.get(keys[0]) {
            Some(v) => Some(v),
            None => first_present(src, keys.drop_first()),
        }
    }
}

/// Sets `key` to the value under the first of `aliases` present in `src`, if any.
pub open spec fn copy_alias(src: JsonV, es: Seq<(Seq<char>, JsonV)>, key: Seq<char>, aliases: Seq<
    Seq<char>,
>) -> Seq<(Seq<char>, JsonV)> {
    match first_present(src, aliases) {
        Some(v) => set_entry(es, key, v),
        None => es,
    }
}

/// The statistics counters a saved work leaves out.
pub open spec fn dropped_counters() -> Seq<Seq<char>> {
    seq![
        "playCount"@,
        "downloadCount"@,
        "forwardCount"@,
        "collectCount"@,
        "digest"@,
        "exposure_count"@,
        "live_watch_count"@,
        "play_count"@,
        "download_count"@,
        "forward_count"@,
        "lose_count"@,
        "lose_comment_count"@,
    ]
}

/// Removes the entries of all `keys`.
pub open spec fn remove_all(es: Seq<(Seq<char>, JsonV)>, keys: Seq<Seq<char>>) -> Seq<
    (Seq<char>, JsonV),
>
    decreases keys.len(),
{
    if keys.len() == 0 {
        es
    } else {
        remove_entry(remove_all(es, keys.drop_last()), keys.last())
    }
}

/// The JSON number of an `i64`.
pub open spec fn int_json(n: i64) -> JsonV {
    if n >= 0 {
        JsonV::UInt(n as u64)
    } else {
        JsonV::NegInt(n)
    }
}

/// The last URL of each image that has one.
pub open spec fn image_urls(images: Seq<JsonV>) -> Seq<Seq<char>>
    decreases images.len(),
{
    if images.len() == 0 {
        Seq::empty()
    } else {
        let prev = image_urls(images.drop_last());
        match last_url(alias2(images.last(), "url_list"@, "urlList"@)) {
            Some(u) => prev.push(u),
            None => prev,
        }
    }
}

/// The JSON strings of a sequence of texts.
pub open spec fn str_items(v: Seq<Seq<char>>) -> Seq<JsonV> {
    Seq::new(v.len(), |i: int| JsonV::Str(v[i]))
}

/// An array of strings.
pub open spec fn str_array(v: Seq<Seq<char>>) -> JsonV {
    JsonV::Arr(str_items(v))
}

/// What a work downloads: the watermark-free video URL for videos, the image
/// URLs for image posts; `None` for other kinds or when nothing is found.
pub open spec fn download_addr(item: JsonV, kind: i64) -> Option<JsonV> {
    if kind <= 66 || kind == 69 || kind == 107 {
        match play_url(item) {
            Some(u) => Some(JsonV::Str(replace_all(u, "watermark=1"@, "watermark=0"@))),
            None => None,
        }
    } else if kind == 68 {
        image_addr(item)
    } else {
        None
    }
}

/// The last play URL of a video, else the last download URL.
pub open spec fn play_url(item: JsonV) -> Option<Seq<char>> {
    match last_url(opt_get(opt_get(item.get("video"@), "play_addr"@), "url_list"@)) {
        Some(u) => Some(u),
        None => last_url(opt_get(item.get("download"@), "urlList"@)),
    }
}

/// The image URLs of an image post, when there is at least one.
pub open spec fn image_addr(item: JsonV) -> Option<JsonV> {
    match item.get("images"@) {
        Some(imgs) => match imgs.as_arr() {
            Some(list) => if image_urls(list).len() > 0 {
                Some(str_array(image_urls(list)))
            } else {
                None
            },
            None => None,
        },
        None => None,
    }
}

/// The author fields of a saved work.
pub open spec fn author_entries(a: JsonV, es: Seq<(Seq<char>, JsonV)>) -> Seq<(Seq<char>, JsonV)> {
    let avatar = or_empty(
        last_url(
            match alias2(a, "avatar_thumb"@, "avatarThumb"@) {
                Some(t) => alias2(t, "url_list"@, "urlList"@),
                None => None,
            },
        ),
    );
    let e0 = set_entry(es, "author_avatar"@, JsonV::Str(avatar));
    let e1 = copy_alias(a, e0, "author_nickname"@, seq!["nickname"@]);
    let e2 = copy_alias(a, e1, "author_uid"@, seq!["sec_uid"@, "secUid"@]);
    let e3 = copy_alias(a, e2, "author_unique_id"@, seq!["unique_id"@, "uniqueId"@]);
    let e4 = copy_alias(a, e3, "author_short_id"@, seq!["short_id"@, "shortId"@]);
    set_entry(
        e4,
        "author_signature"@,
        JsonV::Str(sanitized(string_field(a, "signature"@), 100)),
    )
}

/// The saved form of a topic tag.
pub open spec fn tag_record(tag: JsonV) -> JsonV {
    let id = match alias2(tag, "hashtag_id"@, "hashtagId"@) {
        Some(v) => v,
        None => JsonV::Null,
    };
    let name = match alias2(tag, "hashtag_name"@, "hashtagName"@) {
        Some(v) => v,
        None => JsonV::Null,
    };
    JsonV::Obj(set_entry(set_entry(Seq::empty(), "tag_id"@, id), "tag_name"@, name))
}

/// The cover URL of a work: the last static cover, else the dynamic cover, else empty.
pub open spec fn cover_url(video: Option<JsonV>) -> Seq<char> {
    match last_url(opt_get(opt_get(video, "cover"@), "url_list"@)) {
        Some(u) => u,
        None => match opt_get(video, "dynamicCover"@) {
            Some(d) => match d.as_str() {
                Some(s) => "https:"@ + s,
                None => Seq::empty(),
            },
            None => Seq::empty(),
        },
    }
}

/// The entries of a saved work once its kind and download address are known.
pub open spec fn aweme_entries(item: JsonV, crawl_type: CrawlType, kind: i64, dl: JsonV) -> Seq<
    (Seq<char>, JsonV),
> {
    let base = match alias2(item, "statistics"@, "stats"@) {
        Some(v) => match v.as_obj() {
            Some(es) => es,
            None => Seq::empty(),
        },
        None => Seq::empty(),
    };
    let video = item.get("video"@);
    let e0 = remove_all(base, dropped_counters());
    let e1 = set_entry(e0, "download_addr"@, dl);
    let e2 = copy_alias(item, e1, "id"@, seq!["aweme_id"@, "awemeId"@]);
    let e3 = copy_alias(item, e2, "time"@, seq!["create_time"@, "createTime"@]);
    let e4 = set_entry(e3, "type"@, int_json(kind));
    let e5 = set_entry(e4, "desc"@, JsonV::Str(sanitized(string_field(item, "desc"@), 100)));
    let dur = match item.get("duration"@) {
        Some(d) => d,
        None => match opt_get(video, "duration"@) {
            Some(d) => d,
            None => JsonV::Null,
        },
    };
    let e6 = set_entry(e5, "duration"@, dur);
    let e7 = match item.get("music"@) {
        Some(m) => {
            let t = set_entry(
                e6,
                "music_title"@,
                JsonV::Str(sanitized(string_field(m, "title"@), 100)),
            );
            match alias_uri(m) {
                Some(u) => set_entry(t, "music_url"@, u),
                None => t,
            }
        },
        None => e6,
    };
    let e8 = set_entry(e7, "cover"@, JsonV::Str(cover_url(video)));
    let e9 = match alias2(item, "author"@, "authorInfo"@) {
        Some(a) => author_entries(a, e8),
        None => e8,
    };
    let e10 = match alias2(item, "text_extra"@, "textExtra"@) {
        Some(t) => match t.as_arr() {
            Some(tags) => set_entry(
                e9,
                "text_extra"@,
                JsonV::Arr(Seq::new(tags.len(), |i: int| tag_record(tags[i]))),
            ),
            None => e9,
        },
        None => e9,
    };
    if crawl_type == CrawlType::Mix {
        match opt_get(opt_get(item.get("mix_info"@), "statis"@), "current_episode"@) {
            Some(n) => set_entry(e10, "no"@, n),
            None => e10,
        }
    } else {
        e10
    }
}

/// The URI of a music's play URL.
pub open spec fn alias_uri(m: JsonV) -> Option<JsonV> {
    match opt_get(m.get("play_url"@), "uri"@) {
        Some(u) => Some(u),
        None => opt_get(m.get("playUrl"@), "uri"@),
    }
}

/// The saved record of a work: `None` without an integer kind or a download address.
pub open spec fn aweme_record(item: JsonV, crawl_type: CrawlType) -> Option<JsonV> {
    match alias2(item, "aweme_type"@, "awemeType"@) {
        Some(t) => match int_of(t) {
            Some(kind) => match download_addr(item, kind) {
                Some(dl) => Some(JsonV::Obj(aweme_entries(item, crawl_type, kind, dl))),
                None => None,
            },
            None => None,
        },
        None => None,
    }
}

fn first_present_exec<'a>(src: &'a Json, keys: &Vec<&str>) -> (r: Option<&'a Json>)
    ensures
        r matches Some(x) ==> first_present(src.jv(), strs_view(keys@)) == Some(x.jv()),
        r is None ==> first_present(src.jv(), strs_view(keys@)) is None,
{
    let ghost kv = strs_view(keys@);
    let mut i: usize = 0;
    assert(kv.skip(0) =~= kv);
    while i < keys.len()
        invariant
            i <= keys.len(),
            kv == strs_view(keys@),
            first_present(src.jv(), kv) == first_present(src.jv(), kv.skip(i as int)),
        decreases keys.len() - i,
    {
        assert(kv.skip(i as int)[0] == keys@[i as int]@);
        assert(kv.skip(i as int).drop_first() =~= kv.skip(i + 1));
        match src.get(keys[i]) {
            Some(v) => return Some(v),
            None => {},
        }
        i = i + 1;
    }
    None
}

fn copy_alias_exec(src: &Json, es: &mut Vec<(String, Json)>, key: &str, aliases: Vec<&str>)
    ensures
        entries_view(final(es)@) == copy_alias(
            src.jv(),
            entries_view(old(es)@),
            key@,
            strs_view(aliases@),
        ),
{
    match first_present_exec(src, &aliases) {
        Some(v) => insert_str(es, key, v.duplicate()),
        None => {},
    }
}

fn image_urls_exec(images: &Vec<Json>) -> (r: Vec<Json>)
    ensures
        items_view(r@) == str_items(image_urls(items_view(images@))),
{
    let ghost iv = items_view(images@);
    let mut out: Vec<Json> = Vec::new();
    let mut i: usize = 0;
    assert(iv.take(0) =~= Seq::<JsonV>::empty());
    assert(items_view(out@) =~= str_items(Seq::empty()));
    while i < images.len()
        invariant
            i <= images.len(),
            iv == items_view(images@),
            items_view(out@) == str_items(image_urls(iv.take(i as int))),
        decreases images.len() - i,
    {
        let ghost prev = image_urls(iv.take(i as int));
        assert(iv.take(i + 1).drop_last() =~= iv.take(i as int));
        assert(iv.take(i + 1).last() == images@[i as int].jv());
        match last_url_exec(alias2_exec(&images[i], "url_list", "urlList")) {
            Some(u) => {
                let ghost before = out@;
                out.push(Json::from_chars(u.as_slice()));
                assert(items_view(out@) =~= items_view(before).push(JsonV::Str(u@)));
                assert(str_items(prev.push(u@)) =~= str_items(prev).push(JsonV::Str(u@)));
            },
            None => {},
        }
        i = i + 1;
    }
    assert(iv.take(images.len() as int) =~= iv);
    out
}

fn play_url_exec(item: &Json) -> (r: Option<Vec<char>>)
    ensures
        r matches Some(u) ==> play_url(item.jv()) == Some(u@),
        r is None ==> play_url(item.jv()) is None,
{
    let video = item.get("video");
    match last_url_exec(opt_get_exec(opt_get_exec(video, "play_addr"), "url_list")) {
        Some(u) => Some(u),
        None => last_url_exec(opt_get_exec(item.get("download"), "urlList")),
    }
}

fn image_addr_exec(item: &Json) -> (r: Option<Json>)
    ensures
        r matches Some(x) ==> image_addr(item.jv()) == Some(x.jv()),
        r is None ==> image_addr(item.jv()) is None,
{
    match item.get("images") {
        Some(imgs) => match imgs.as_array() {
            Some(list) => {
                let urls = image_urls_exec(list);
                let ghost found = image_urls(items_view(list@));
                proof {
                    assert(items_view(list@) =~= Seq::new(list@.len(), |i: int| list@[i].jv()));
                    assert(imgs.jv().as_arr() == Some(items_view(list@)));
                    lemma_arr_view(urls);
                    assert(urls@.len() == items_view(urls@).len());
                    assert(urls@.len() == found.len());
                    assert(Json::Arr(urls).jv() == str_array(found));
                }
                if urls.len() > 0 {
                    Some(Json::Arr(urls))
                } else {
                    None
                }
            },
            None => None,
        },
        None => None,
    }
}

fn download_addr_exec(item: &Json, kind: i64) -> (r: Option<Json>)
    ensures
        r matches Some(x) ==> download_addr(item.jv(), kind) == Some(x.jv()),
        r is None ==> download_addr(item.jv(), kind) is None,
{
    if kind <= 66 || kind == 69 || kind == 107 {
        match play_url_exec(item) {
            Some(u) => {
                let from = chars_of("watermark=1");
                let to = chars_of("watermark=0");
                proof {
                    reveal_strlit("watermark=1");
                }
                let fixed = replace_chars(u.as_slice(), from.as_slice(), to.as_slice());
                Some(Json::from_chars(fixed.as_slice()))
            },
            None => None,
        }
    } else if kind == 68 {
        image_addr_exec(item)
    } else {
        None
    }
}

fn author_entries_exec(a: &Json, es: &mut Vec<(String, Json)>)
    ensures
        entries_view(final(es)@) == author_entries(a.jv(), entries_view(old(es)@)),
{
    let thumb = alias2_exec(a, "avatar_thumb", "avatarThumb");
    let urls = match thumb {
        Some(t) => alias2_exec(t, "url_list", "urlList"),
        None => None,
    };
    let avatar = match last_url_exec(urls) {
        Some(u) => u,
        None => Vec::new(),
    };
    insert_str(es, "author_avatar", Json::from_chars(avatar.as_slice()));
    let v1 = vec!["nickname"];
    assert(strs_view(v1@) =~= seq!["nickname"@]);
    copy_alias_exec(a, es, "author_nickname", v1);
    let v2 = vec!["sec_uid", "secUid"];
    assert(strs_view(v2@) =~= seq!["sec_uid"@, "secUid"@]);
    copy_alias_exec(a, es, "author_uid", v2);
    let v3 = vec!["unique_id", "uniqueId"];
    assert(strs_view(v3@) =~= seq!["unique_id"@, "uniqueId"@]);
    copy_alias_exec(a, es, "author_unique_id", v3);
    let v4 = vec!["short_id", "shortId"];
    assert(strs_view(v4@) =~= seq!["short_id"@, "shortId"@]);
    copy_alias_exec(a, es, "author_short_id", v4);
    let sig = sanitize_chars(string_field_exec(a, "signature").as_slice(), 100);
    insert_str(es, "author_signature", Json::from_chars(sig.as_slice()));
}

fn tag_record_exec(tag: &Json) -> (r: Json)
    ensures
        r.jv() == tag_record(tag.jv()),
{
    let id = match alias2_exec(tag, "hashtag_id", "hashtagId") {
        Some(v) => v.duplicate(),
        None => Json::Null,
    };
    let name = match alias2_exec(tag, "hashtag_name", "hashtagName") {
        Some(v) => v.duplicate(),
        None => Json::Null,
    };
    let mut es: Vec<(String, Json)> = Vec::new();
    assert(entries_view(es@) =~= Seq::<(Seq<char>, JsonV)>::empty());
    insert_str(&mut es, "tag_id", id);
    insert_str(&mut es, "tag_name", name);
    proof {
        lemma_obj_view(es);
    }
    Json::Obj(es)
}

fn cover_exec(video: Option<&Json>) -> (r: Vec<char>)
    ensures
        r@ == cover_url(
            match video {
                Some(x) => Some(x.jv()),
                None => None,
            },
        ),
{
    match last_url_exec(opt_get_exec(opt_get_exec(video, "cover"), "url_list")) {
        Some(u) => u,
        None => match opt_get_exec(video, "dynamicCover") {
            Some(d) => match d.as_str() {
                Some(s) => concat(chars_of("https:").as_slice(), chars_of(s.as_str()).as_slice()),
                None => Vec::new(),
            },
            None => Vec::new(),
        },
    }
}

fn int_json_exec(n: i64) -> (r: Json)
    ensures
        r.jv() == int_json(n),
{
    if n >= 0 {
        Json::UInt(n as u64)
    } else {
        Json::NegInt(n)
    }
}

/// The saved record of a work; see [`aweme_record`].
#[verifier::spinoff_prover]
#[verifier::rlimit(30)]
pub fn parse_aweme(item: &Json, crawl_type: CrawlType) -> (r: Option<Json>)
    ensures
        r matches Some(x) ==> aweme_record(item.jv(), crawl_type) == Some(x.jv()),
        r is None ==> aweme_record(item.jv(), crawl_type) is None,
{
    let kind = match alias2_exec(item, "aweme_type", "awemeType") {
        Some(t) => match value_i64(t) {
            Some(k) => k,
            None => return None,
        },
        None => return None,
    };
    let dl = match download_addr_exec(item, kind) {
        Some(d) => d,
        None => return None,
    };
    let mut out: Vec<(String, Json)> = match alias2_exec(item, "statistics", "stats") {
        Some(Json::Obj(es)) => {
            proof {
                lemma_obj_view(*es);
            }
            duplicate_entries(es)
        },
        _ => Vec::new(),
    };
    assert(out@.len() == 0 ==> entries_view(out@) =~= Seq::<(Seq<char>, JsonV)>::empty());
    let ghost base = entries_view(out@);
    let removed = vec![
        "playCount",
        "downloadCount",
        "forwardCount",
        "collectCount",
        "digest",
        "exposure_count",
        "live_watch_count",
        "play_count",
        "download_count",
        "forward_count",
        "lose_count",
        "lose_comment_count",
    ];
    let ghost dv = dropped_counters();
    assert(forall|j: int| 0 <= j < dv.len() ==> (#[trigger] removed@[j])@ == dv[j]);
    let mut i: usize = 0;
    assert(dv.take(0) =~= Seq::<Seq<char>>::empty());
    while i < removed.len()
        invariant
            i <= removed.len(),
            removed@.len() == dv.len(),
            forall|j: int| 0 <= j < dv.len() ==> (#[trigger] removed@[j])@ == dv[j],
            entries_view(out@) == remove_all(base, dv.take(i as int)),
        decreases removed.len() - i,
    {
        assert(dv.take(i + 1).drop_last() =~= dv.take(i as int));
        assert(dv.take(i + 1).last() == removed@[i as int]@);
        remove_key(&mut out, removed[i]);
        i = i + 1;
    }
    assert(dv.take(removed.len() as int) =~= dv);
    insert_str(&mut out, "download_addr", dl);
    let ids = vec!["aweme_id", "awemeId"];
    assert(strs_view(ids@) =~= seq!["aweme_id"@, "awemeId"@]);
    copy_alias_exec(item, &mut out, "id", ids);
    let times = vec!["create_time", "createTime"];
    assert(strs_view(times@) =~= seq!["create_time"@, "createTime"@]);
    copy_alias_exec(item, &mut out, "time", times);
    insert_str(&mut out, "type", int_json_exec(kind));
    let desc = sanitize_chars(string_field_exec(item, "desc").as_slice(), 100);
    insert_str(&mut out, "desc", Json::from_chars(desc.as_slice()));
    let video = item.get("video");
    let dur = match item.get("duration") {
        Some(d) => d.duplicate(),
        None => match opt_get_exec(video, "duration") {
            Some(d) => d.duplicate(),
            None => Json::Null,
        },
    };
    insert_str(&mut out, "duration", dur);
    match item.get("music") {
        Some(m) => {
            let title = sanitize_chars(string_field_exec(m, "title").as_slice(), 100);
            insert_str(&mut out, "music_title", Json::from_chars(title.as_slice()));
            let uri = match opt_get_exec(m.get("play_url"), "uri") {
                Some(u) => Some(u),
                None => opt_get_exec(m.get("playUrl"), "uri"),
            };
            match uri {
                Some(u) => insert_str(&mut out, "music_url", u.duplicate()),
                None => {},
            }
        },
        None => {},
    }
    let cover = cover_exec(video);
    insert_str(&mut out, "cover", Json::from_chars(cover.as_slice()));
    match alias2_exec(item, "author", "authorInfo") {
        Some(a) => author_entries_exec(a, &mut out),
        None => {},
    }
    match alias2_exec(item, "text_extra", "textExtra") {
        Some(t) => match t.as_array() {
            Some(tags) => {
                let mut recs: Vec<Json> = Vec::new();
                let mut k: usize = 0;
                while k < tags.len()
                    invariant
                        k <= tags.len(),
                        recs@.len() == k,
                        forall|j: int| 0 <= j < k ==> (#[trigger] recs@[j]).jv() == tag_record(tags@[j].jv()),
                    decreases tags.len() - k,
                {
                    recs.push(tag_record_exec(&tags[k]));
                    k = k + 1;
                }
                proof {
                    lemma_arr_view(recs);
                    let tv = items_view(tags@);
                    assert(items_view(recs@) =~= Seq::new(tv.len(), |j: int| tag_record(tv[j])));
                }
                insert_str(&mut out, "text_extra", Json::Arr(recs));
            },
            None => {},
        },
        None => {},
    }
    if matches!(crawl_type, CrawlType::Mix) {
        match opt_get_exec(opt_get_exec(item.get("mix_info"), "statis"), "current_episode") {
            Some(n) => insert_str(&mut out, "no", n.duplicate()),
            None => {},
        }
    }
    proof {
        lemma_obj_view(out);
    }
    Some(Json::Obj(out))
}

fn duplicate_entries(es: &Vec<(String, Json)>) -> (r: Vec<(String, Json)>)
    ensures
        entries_view(r@) == entries_view(es@),
{
    let mut out: Vec<(String, Json)> = Vec::new();
    let mut i: usize = 0;
    while i < es.len()
        invariant
            i <= es.len(),
            out@.len() == i,
            forall|j: int|
                0 <= j < i ==> (#[trigger] out@[j]).0@ == es@[j].0@ && out@[j].1.jv()
                    == es@[j].1.jv(),
        decreases es.len() - i,
    {
        out.push((es[i].0.clone(), es[i].1.duplicate()));
        i = i + 1;
    }
    assert(entries_view(out@) =~= entries_view(es@));
    out
}

/// The browser identity the web requests use when the settings name none.
pub open spec fn default_user_agent() -> Seq<char> {
    "Mozilla/5.0 (Windows NT 10.0; Win64; x64) AppleWebKit/537.36 (KHTML, like Gecko) Chrome/132.0.0.0 Safari/537.36"@
}

/// What a crawl run uses besides its arguments.
pub struct CrawlSettings {
    pub cookie: String,
    pub user_agent: String,
    pub filename_fields: Vec<String>,
    pub filename_separator: String,
    pub download_title: bool,
    pub download_cover: bool,
}

/// The plain value of [`CrawlSettings`].
pub struct CrawlSettingsView {
    pub cookie: Seq<char>,
    pub user_agent: Seq<char>,
    pub filename_fields: Seq<Seq<char>>,
    pub filename_separator: Seq<char>,
    pub download_title: bool,
    pub download_cover: bool,
}

/// The text under `key` when it is a non-empty string.
pub open spec fn nonempty_text(settings: JsonV, key: Seq<char>) -> Option<Seq<char>> {
    match settings.get(key) {
        Some(JsonV::Str(s)) => if s.len() > 0 {
            Some(s)
        } else {
            None
        },
        _ => None,
    }
}

/// The strings among some items, in order.
pub open spec fn texts_in(items: Seq<JsonV>) -> Seq<Seq<char>>
    decreases items.len(),
{
    if items.len() == 0 {
        Seq::empty()
    } else {
        match items.last() {
            JsonV::Str(s) => texts_in(items.drop_last()).push(s),
            _ => texts_in(items.drop_last()),
        }
    }
}

/// What a crawl run uses: the cookie given (else the saved one), which must
/// not be blank and must pass the format check, and the naming and saving
/// options of the settings.
pub open spec fn crawl_settings_of(
    cookie: Option<Seq<char>>,
    settings: JsonV,
    download_title: bool,
    download_cover: bool,
) -> Result<CrawlSettingsView, Seq<char>> {
    let chosen = match cookie {
        Some(c) => Some(c),
        None => match settings.get("cookie"@) {
            Some(JsonV::Str(s)) => Some(s),
            _ => None,
        },
    };
    match chosen {
        None => Err("未登录。请先运行: douyin auth cookie-login"@),
        Some(c) => if trim(c).len() == 0 {
            Err("未登录。请先运行: douyin auth cookie-login"@)
        } else if !crate::cookie::cookie_valid(c) {
            Err("Cookie 格式校验失败"@)
        } else {
            Ok(
                CrawlSettingsView {
                    cookie: c,
                    user_agent: match nonempty_text(settings, "userAgent"@) {
                        Some(u) => u,
                        None => default_user_agent(),
                    },
                    filename_fields: match settings.get("filenameFields"@) {
                        Some(JsonV::Arr(items)) => texts_in(items),
                        _ => seq!["id"@, "title"@],
                    },
                    filename_separator: match nonempty_text(settings, "filenameSeparator"@) {
                        Some(t) => t,
                        None => "_"@,
                    },
                    download_title: download_title || settings.get("enableDownloadTitle"@) == Some(JsonV::Bool(true)),
                    download_cover: download_cover || settings.get("enableDownloadCover"@) == Some(JsonV::Bool(true)),
                },
            )
        },
    }
}

impl CrawlSettings {
    /// The plain value of the settings.
    pub open spec fn sv(&self) -> CrawlSettingsView {
        CrawlSettingsView {
            cookie: self.cookie@,
            user_agent: self.user_agent@,
            filename_fields: crate::download::texts(self.filename_fields@),
            filename_separator: self.filename_separator@,
            download_title: self.download_title,
            download_cover: self.download_cover,
        }
    }
}

fn nonempty_text_exec(settings: &Json, key: &str) -> (r: Option<String>)
    ensures
        crate::target::opt_str_view(r) == nonempty_text(settings.jv(), key@),
{
    match settings.get(key) {
        Some(Json::Str(s)) => if s.as_str().is_empty() {
            None
        } else {
            Some(s.clone())
        },
        _ => None,
    }
}

fn texts_in_exec(items: &Vec<Json>) -> (r: Vec<String>)
    ensures
        crate::download::texts(r@) == texts_in(crate::json::items_view(items@)),
{
    let ghost iv = crate::json::items_view(items@);
    let mut out: Vec<String> = Vec::new();
    let mut i: usize = 0;
    assert(iv.take(0) =~= Seq::<JsonV>::empty());
    while i < items.len()
        invariant
            i <= items.len(),
            iv == crate::json::items_view(items@),
            crate::download::texts(out@) == texts_in(iv.take(i as int)),
        decreases items.len() - i,
    {
        assert(iv.take(i + 1).drop_last() =~= iv.take(i as int));
        assert(iv.take(i + 1).last() == items@[i as int].jv());
        match &items[i] {
            Json::Str(t) => {
                let ghost before = crate::download::texts(out@);
                out.push(t.clone());
                assert(crate::download::texts(out@) =~= before.push(t@));
            },
            _ => {},
        }
        i = i + 1;
    }
    assert(iv.take(items.len() as int) =~= iv);
    out
}

fn flag_on(settings: &Json, key: &str) -> (r: bool)
    ensures
        r == (settings.jv().get(key@) == Some(JsonV::Bool(true))),
{
    match settings.get(key) {
        Some(Json::Bool(b)) => *b,
        _ => false,
    }
}

/// What a crawl run uses; see [`crawl_settings_of`].
pub fn crawl_settings(cookie: Option<String>, settings: &Json, download_title: bool, download_cover: bool) -> (r:
    Result<CrawlSettings, String>)
    ensures
        match r {
            Ok(s) => crawl_settings_of(crate::target::opt_str_view(cookie), settings.jv(), download_title, download_cover)
                == Ok::<CrawlSettingsView, Seq<char>>(s.sv()),
            Err(e) => crawl_settings_of(crate::target::opt_str_view(cookie), settings.jv(), download_title, download_cover)
                == Err::<CrawlSettingsView, Seq<char>>(e@),
        },
{
    let chosen = match cookie {
        Some(c) => Some(c),
        None => match settings.get("cookie") {
            Some(Json::Str(s)) => Some(s.clone()),
            _ => None,
        },
    };
    let c = match chosen {
        None => return Err("未登录。请先运行: douyin auth cookie-login".to_owned()),
        Some(c) => c,
    };
    if trim_chars(chars_of(c.as_str()).as_slice()).len() == 0 {
        return Err("未登录。请先运行: douyin auth cookie-login".to_owned());
    }
    if !crate::cookie::validate(c.as_str()) {
        return Err("Cookie 格式校验失败".to_owned());
    }
    let user_agent = match nonempty_text_exec(settings, "userAgent") {
        Some(u) => u,
        None => "Mozilla/5.0 (Windows NT 10.0; Win64; x64) AppleWebKit/537.36 (KHTML, like Gecko) Chrome/132.0.0.0 Safari/537.36".to_owned(),
    };
    let filename_fields = match settings.get("filenameFields") {
        Some(Json::Arr(items)) => {
            proof {
                crate::json::lemma_arr_view(*items);
            }
            texts_in_exec(items)
        },
        _ => {
            let d = vec!["id".to_owned(), "title".to_owned()];
            assert(crate::download::texts(d@) =~= seq!["id"@, "title"@]);
            d
        },
    };
    let filename_separator = match nonempty_text_exec(settings, "filenameSeparator") {
        Some(t) => t,
        None => "_".to_owned(),
    };
    Ok(
        CrawlSettings {
            cookie: c,
            user_agent,
            filename_fields,
            filename_separator,
            download_title: download_title || flag_on(settings, "enableDownloadTitle"),
            download_cover: download_cover || flag_on(settings, "enableDownloadCover"),
        },
    )
}

/// The targets a target file lists: its lines, trimmed, without empty ones.
pub open spec fn listed_targets(text: Seq<char>) -> Seq<Seq<char>> {
    crate::insights::content_lines(text).map_values(|l: Seq<char>| trim(l))
}

/// The targets a target file lists; see [`listed_targets`].
pub fn target_lines(text: &str) -> (r: Vec<String>)
    ensures
        crate::target::strings_view(r@) == listed_targets(text@),
{
    let lines = crate::insights::input_lines(text);
    let ghost lv = crate::target::strings_view(lines@);
    let mut out: Vec<String> = Vec::new();
    let mut i: usize = 0;
    while i < lines.len()
        invariant
            i <= lines.len(),
            lv == crate::target::strings_view(lines@),
            crate::target::strings_view(out@) == lv.take(i as int).map_values(|l: Seq<char>| trim(l)),
        decreases lines.len() - i,
    {
        let ghost before = crate::target::strings_view(out@);
        out.push(string_of(trim_chars(chars_of(lines[i].as_str()).as_slice()).as_slice()));
        assert(crate::target::strings_view(out@) =~= before.push(trim(lv[i as int])));
        assert(lv.take(i + 1).map_values(|l: Seq<char>| trim(l)) =~= lv.take(i as int).map_values(
            |l: Seq<char>| trim(l),
        ).push(trim(lv[i as int])));
        i = i + 1;
    }
    assert(lv.take(lines.len() as int) =~= lv);
    out
}

/// The page field that names a target for its data file: none for a search
/// or a single work (their ID names them), else the collection, music or
/// topic name, or the account's nickname.
pub open spec fn title_field(kind: CrawlType) -> Option<Seq<char>> {
    match kind {
        CrawlType::Search | CrawlType::Aweme => None,
        CrawlType::Mix => Some("mixName"@),
        CrawlType::Music => Some("title"@),
        CrawlType::Hashtag => Some("chaName"@),
        _ => Some("nickname"@),
    }
}

/// The page field that names a target; see [`title_field`].
pub fn title_key(kind: CrawlType) -> (r: Option<&'static str>)
    ensures
        match r {
            Some(k) => title_field(kind) == Some(k@),
            None => title_field(kind) is None,
        },
{
    match kind {
        CrawlType::Search | CrawlType::Aweme => None,
        CrawlType::Mix => Some("mixName"),
        CrawlType::Music => Some("title"),
        CrawlType::Hashtag => Some("chaName"),
        _ => Some("nickname"),
    }
}

} // verus!
