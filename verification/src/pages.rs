//! The paged list requests of a crawl and the state of a crawl between pages.
use vstd::prelude::*;
use crate::cookie::string_pairs_view;
use crate::crawler::{
    alias2_exec, aweme_record, int_of, is_truthy, limit_reached, opt_get, parse_aweme, parse_user,
    truthy, user_record, value_i64, CrawlArgs, CrawlType,
};
use crate::json::{
    entries_view, insert_str, items_view, json_text, lemma_obj_view, set_entry, to_json_string,
    Json, JsonV,
};
use crate::target::Target;
use crate::text::{signed_decimal, signed_decimal_chars, string_of};

verus! {

broadcast use vstd::string::group_string_axioms;

/// One list request: the API path, its query and, for a POST, its form.
pub struct ListRequest {
    pub path: String,
    pub params: Vec<(String, String)>,
    pub form: Option<Vec<(String, String)>>,
}

/// The pairs of text that a list of string-slice pairs names.
pub open spec fn str_pairs_view(v: Seq<(&str, &str)>) -> Seq<(Seq<char>, Seq<char>)> {
    Seq::new(v.len(), |i: int| (v[i].0@, v[i].1@))
}

/// Owned copies of key–value pairs.
pub fn pairs(items: &Vec<(&str, &str)>) -> (r: Vec<(String, String)>)
    ensures
        string_pairs_view(r@) == str_pairs_view(items@),
{
    let mut out: Vec<(String, String)> = Vec::new();
    let mut i: usize = 0;
    while i < items.len()
        invariant
            i <= items.len(),
            out@.len() == i,
            forall|j: int|
                0 <= j < i ==> (#[trigger] out@[j]).0@ == items@[j].0@ && out@[j].1@
                    == items@[j].1@,
        decreases items.len() - i,
    {
        let (k, v) = items[i];
        out.push((k.to_owned(), v.to_owned()));
        i = i + 1;
    }
    assert(string_pairs_view(out@) =~= str_pairs_view(items@));
    out
}

/// An optional text, or a default.
pub open spec fn text_or(v: Option<String>, default: Seq<char>) -> Seq<char> {
    match v {
        Some(s) => s@,
        None => default,
    }
}

/// The filters of a search request, as a JSON object.
pub open spec fn search_filters(sort: Seq<char>, publish: Seq<char>, duration: Seq<char>) -> JsonV {
    let e0 = set_entry(Seq::empty(), "sort_type"@, JsonV::Str(sort));
    let e1 = set_entry(e0, "publish_time"@, JsonV::Str(publish));
    let e2 = set_entry(e1, "content_type"@, JsonV::Str("1"@));
    let e3 = set_entry(e2, "filter_duration"@, JsonV::Str(duration));
    JsonV::Obj(set_entry(e3, "search_range"@, JsonV::Str("0"@)))
}

/// The API path of the list requests of a crawl type.
pub open spec fn list_path(kind: CrawlType) -> Seq<char> {
    match kind {
        CrawlType::Post => "/aweme/v1/web/aweme/post/"@,
        CrawlType::Favorite => "/aweme/v1/web/aweme/favorite/"@,
        CrawlType::Collection => "/aweme/v1/web/aweme/listcollection/"@,
        CrawlType::Music => "/aweme/v1/web/music/aweme/"@,
        CrawlType::Hashtag => "/aweme/v1/web/challenge/aweme/"@,
        CrawlType::Mix => "/aweme/v1/web/mix/aweme/"@,
        CrawlType::Search => "/aweme/v1/web/general/search/single/"@,
        CrawlType::Following => "/aweme/v1/web/user/following/list/"@,
        CrawlType::Follower => "/aweme/v1/web/user/follower/list/"@,
        CrawlType::Aweme => Seq::empty(),
    }
}

/// The query of a list request for the target `id` at `cursor`; `filters` is
/// the JSON text of the search filters and `log_id` the search ID so far.
pub open spec fn list_params(
    kind: CrawlType,
    id: Seq<char>,
    cursor: i64,
    log_id: Seq<char>,
    filters: Seq<char>,
) -> Seq<(Seq<char>, Seq<char>)> {
    let c = signed_decimal(cursor as int);
    match kind {
        CrawlType::Post => seq![
            ("publish_video_strategy_type"@, "2"@),
            ("max_cursor"@, c),
            ("locate_query"@, "false"@),
            ("show_live_replay_strategy"@, "1"@),
            ("need_time_list"@, "0"@),
            ("time_list_query"@, "0"@),
            ("whale_cut_token"@, ""@),
            ("count"@, "18"@),
            ("sec_user_id"@, id),
        ],
        CrawlType::Favorite => seq![
            ("sec_user_id"@, id),
            ("max_cursor"@, c),
            ("min_cursor"@, "0"@),
            ("whale_cut_token"@, ""@),
            ("cut_version"@, "1"@),
            ("count"@, "18"@),
            ("publish_video_strategy_type"@, "2"@),
        ],
        CrawlType::Collection => seq![("sec_user_id"@, id), ("publish_video_strategy_type"@, "2"@)],
        CrawlType::Music => seq![("cursor"@, c), ("count"@, "18"@), ("music_id"@, id)],
        CrawlType::Hashtag => seq![
            ("cursor"@, c),
            ("count"@, "18"@),
            ("sort_type"@, "1"@),
            ("ch_id"@, id),
        ],
        CrawlType::Mix => seq![("cursor"@, c), ("count"@, "18"@), ("mix_id"@, id)],
        CrawlType::Search => seq![
            ("search_channel"@, "aweme_general"@),
            ("enable_history"@, "1"@),
            ("filter_selected"@, filters),
            ("keyword"@, id),
            ("search_source"@, "tab_search"@),
            ("query_correct_type"@, "1"@),
            ("is_filter_search"@, "1"@),
            ("from_group_id"@, ""@),
            ("disable_rs"@, "0"@),
            ("offset"@, c),
            ("count"@, "18"@),
            ("need_filter_settings"@, "0"@),
            ("list_type"@, "multi"@),
            ("search_id"@, log_id),
        ],
        CrawlType::Following => seq![
            ("sec_user_id"@, id),
            ("offset"@, "0"@),
            ("min_time"@, "0"@),
            ("max_time"@, c),
            ("count"@, "20"@),
            ("gps_access"@, "0"@),
            ("is_top"@, "1"@),
        ],
        CrawlType::Follower => seq![
            ("sec_user_id"@, id),
            ("offset"@, "0"@),
            ("min_time"@, "0"@),
            ("max_time"@, c),
            ("count"@, "20"@),
            ("gps_access"@, "0"@),
            ("is_top"@, "1"@),
            ("source_type"@, "3"@),
        ],
        CrawlType::Aweme => Seq::empty(),
    }
}

/// The form of a list request: only collections are posted.
pub open spec fn list_form(kind: CrawlType, cursor: i64) -> Option<Seq<(Seq<char>, Seq<char>)>> {
    if kind == CrawlType::Collection {
        Some(seq![("cursor"@, signed_decimal(cursor as int)), ("count"@, "18"@)])
    } else {
        None
    }
}

/// The plain value of an optional form.
pub open spec fn form_view(f: Option<Vec<(String, String)>>) -> Option<Seq<(Seq<char>, Seq<char>)>> {
    match f {
        Some(v) => Some(string_pairs_view(v@)),
        None => None,
    }
}

/// The JSON text of the search filters of the crawl options.
fn filters_text(args: &CrawlArgs) -> (r: String)
    ensures
        r@ == json_text(
            search_filters(
                text_or(args.sort_type, "0"@),
                text_or(args.publish_time, "0"@),
                text_or(args.filter_duration, "0"@),
            ),
        ),
{
    let sort = match &args.sort_type {
        Some(s) => s.clone(),
        None => "0".to_owned(),
    };
    let publish = match &args.publish_time {
        Some(s) => s.clone(),
        None => "0".to_owned(),
    };
    let duration = match &args.filter_duration {
        Some(s) => s.clone(),
        None => "0".to_owned(),
    };
    let mut es: Vec<(String, Json)> = Vec::new();
    assert(entries_view(es@) =~= Seq::<(Seq<char>, JsonV)>::empty());
    insert_str(&mut es, "sort_type", Json::Str(sort));
    insert_str(&mut es, "publish_time", Json::Str(publish));
    insert_str(&mut es, "content_type", Json::Str("1".to_owned()));
    insert_str(&mut es, "filter_duration", Json::Str(duration));
    insert_str(&mut es, "search_range", Json::Str("0".to_owned()));
    proof {
        lemma_obj_view(es);
    }
    to_json_string(&Json::Obj(es))
}

/// The list request for a page of `target` at `cursor`; works named one by
/// one (`aweme`) have no list.
pub fn list_request(target: &Target, cursor: i64, log_id: &str, args: &CrawlArgs) -> (r: Result<
    ListRequest,
    String,
>)
    ensures
        r is Err <==> target.kind == CrawlType::Aweme,
        r matches Err(e) ==> e@ == "aweme 类型不使用列表接口"@,
        r matches Ok(req) ==> {
            &&& req.path@ == list_path(target.kind)
            &&& string_pairs_view(req.params@) == list_params(
                target.kind,
                target.id@,
                cursor,
                log_id@,
                json_text(
                    search_filters(
                        text_or(args.sort_type, "0"@),
                        text_or(args.publish_time, "0"@),
                        text_or(args.filter_duration, "0"@),
                    ),
                ),
            )
            &&& form_view(req.form) == list_form(target.kind, cursor)
        },
{
    let cs = string_of(signed_decimal_chars(cursor).as_slice());
    let c = cs.as_str();
    let id = target.id.as_str();
    match target.kind {
        CrawlType::Post => {
            let v = vec![
                ("publish_video_strategy_type", "2"),
                ("max_cursor", c),
                ("locate_query", "false"),
                ("show_live_replay_strategy", "1"),
                ("need_time_list", "0"),
                ("time_list_query", "0"),
                ("whale_cut_token", ""),
                ("count", "18"),
                ("sec_user_id", id),
            ];
            let params = pairs(&v);
            assert(string_pairs_view(params@) =~= list_params(target.kind, id@, cursor, log_id@, Seq::empty()));
            Ok(ListRequest { path: "/aweme/v1/web/aweme/post/".to_owned(), params, form: None })
        },
        CrawlType::Favorite => {
            let v = vec![
                ("sec_user_id", id),
                ("max_cursor", c),
                ("min_cursor", "0"),
                ("whale_cut_token", ""),
                ("cut_version", "1"),
                ("count", "18"),
                ("publish_video_strategy_type", "2"),
            ];
            let params = pairs(&v);
            assert(string_pairs_view(params@) =~= list_params(target.kind, id@, cursor, log_id@, Seq::empty()));
            Ok(ListRequest { path: "/aweme/v1/web/aweme/favorite/".to_owned(), params, form: None })
        },
        CrawlType::Collection => {
            let v = vec![("sec_user_id", id), ("publish_video_strategy_type", "2")];
            let params = pairs(&v);
            assert(string_pairs_view(params@) =~= list_params(target.kind, id@, cursor, log_id@, Seq::empty()));
            let f = vec![("cursor", c), ("count", "18")];
            let form = pairs(&f);
            assert(string_pairs_view(form@) =~= list_form(target.kind, cursor).unwrap());
            Ok(
                ListRequest {
                    path: "/aweme/v1/web/aweme/listcollection/".to_owned(),
                    params,
                    form: Some(form),
                },
            )
        },
        CrawlType::Music => {
            let v = vec![("cursor", c), ("count", "18"), ("music_id", id)];
            let params = pairs(&v);
            assert(string_pairs_view(params@) =~= list_params(target.kind, id@, cursor, log_id@, Seq::empty()));
            Ok(ListRequest { path: "/aweme/v1/web/music/aweme/".to_owned(), params, form: None })
        },
        CrawlType::Hashtag => {
            let v = vec![("cursor", c), ("count", "18"), ("sort_type", "1"), ("ch_id", id)];
            let params = pairs(&v);
            assert(string_pairs_view(params@) =~= list_params(target.kind, id@, cursor, log_id@, Seq::empty()));
            Ok(
                ListRequest {
                    path: "/aweme/v1/web/challenge/aweme/".to_owned(),
                    params,
                    form: None,
                },
            )
        },
        CrawlType::Mix => {
            let v = vec![("cursor", c), ("count", "18"), ("mix_id", id)];
            let params = pairs(&v);
            assert(string_pairs_view(params@) =~= list_params(target.kind, id@, cursor, log_id@, Seq::empty()));
            Ok(ListRequest { path: "/aweme/v1/web/mix/aweme/".to_owned(), params, form: None })
        },
        CrawlType::Search => {
            let filters = filters_text(args);
            let v = vec![
                ("search_channel", "aweme_general"),
                ("enable_history", "1"),
                ("filter_selected", filters.as_str()),
                ("keyword", id),
                ("search_source", "tab_search"),
                ("query_correct_type", "1"),
                ("is_filter_search", "1"),
                ("from_group_id", ""),
                ("disable_rs", "0"),
                ("offset", c),
                ("count", "18"),
                ("need_filter_settings", "0"),
                ("list_type", "multi"),
                ("search_id", log_id),
            ];
            let params = pairs(&v);
            assert(string_pairs_view(params@) =~= list_params(target.kind, id@, cursor, log_id@, filters@));
            Ok(
                ListRequest {
                    path: "/aweme/v1/web/general/search/single/".to_owned(),
                    params,
                    form: None,
                },
            )
        },
        CrawlType::Following => {
            let v = vec![
                ("sec_user_id", id),
                ("offset", "0"),
                ("min_time", "0"),
                ("max_time", c),
                ("count", "20"),
                ("gps_access", "0"),
                ("is_top", "1"),
            ];
            let params = pairs(&v);
            assert(string_pairs_view(params@) =~= list_params(target.kind, id@, cursor, log_id@, Seq::empty()));
            Ok(
                ListRequest {
                    path: "/aweme/v1/web/user/following/list/".to_owned(),
                    params,
                    form: None,
                },
            )
        },
        CrawlType::Follower => {
            let v = vec![
                ("sec_user_id", id),
                ("offset", "0"),
                ("min_time", "0"),
                ("max_time", c),
                ("count", "20"),
                ("gps_access", "0"),
                ("is_top", "1"),
                ("source_type", "3"),
            ];
            let params = pairs(&v);
            assert(string_pairs_view(params@) =~= list_params(target.kind, id@, cursor, log_id@, Seq::empty()));
            Ok(
                ListRequest {
                    path: "/aweme/v1/web/user/follower/list/".to_owned(),
                    params,
                    form: None,
                },
            )
        },
        CrawlType::Aweme => Err("aweme 类型不使用列表接口".to_owned()),
    }
}

/// A non-zero integer value.
pub open spec fn nonzero_int(v: Option<JsonV>) -> Option<i64> {
    match v {
        Some(x) => match int_of(x) {
            Some(n) => if n != 0 {
                Some(n)
            } else {
                None
            },
            None => None,
        },
        None => None,
    }
}

/// The cursor of the next page: the first non-zero `max_cursor`, `cursor` or
/// `min_time` of the response, else the cursor unchanged.
pub open spec fn next_cursor(resp: JsonV, cursor: i64) -> i64 {
    match nonzero_int(resp.get("max_cursor"@)) {
        Some(n) => n,
        None => match nonzero_int(resp.get("cursor"@)) {
            Some(n) => n,
            None => match nonzero_int(resp.get("min_time"@)) {
                Some(n) => n,
                None => cursor,
            },
        },
    }
}

/// The search ID: kept once known, else the `log_pb.impr_id` of the response.
pub open spec fn next_log_id(log_id: Seq<char>, resp: JsonV) -> Seq<char> {
    if log_id.len() > 0 {
        log_id
    } else {
        match opt_get(resp.get("log_pb"@), "impr_id"@) {
            Some(v) => match v.as_str() {
                Some(s) => s,
                None => Seq::empty(),
            },
            None => Seq::empty(),
        }
    }
}

/// A non-empty array value.
pub open spec fn nonempty_list(v: Option<JsonV>) -> Option<Seq<JsonV>> {
    match v {
        Some(x) => match x.as_arr() {
            Some(a) => if a.len() > 0 {
                Some(a)
            } else {
                None
            },
            None => None,
        },
        None => None,
    }
}

/// The items of a page: the first non-empty list among the keys the API uses.
pub open spec fn page_items(resp: JsonV) -> Seq<JsonV> {
    match nonempty_list(resp.get("aweme_list"@)) {
        Some(a) => a,
        None => match nonempty_list(resp.get("user_list"@)) {
            Some(a) => a,
            None => match nonempty_list(resp.get("data"@)) {
                Some(a) => a,
                None => match nonempty_list(resp.get("followings"@)) {
                    Some(a) => a,
                    None => match nonempty_list(resp.get("followers"@)) {
                        Some(a) => a,
                        None => Seq::empty(),
                    },
                },
            },
        },
    }
}

/// The saved record of one listed item, read from its `user_info` or
/// `aweme_info` when it has one.
pub open spec fn listed_record(raw: JsonV, kind: CrawlType) -> Option<JsonV> {
    let user_list = kind == CrawlType::Following || kind == CrawlType::Follower;
    let key = if user_list {
        "user_info"@
    } else {
        "aweme_info"@
    };
    let item = match raw.get(key) {
        Some(x) => x,
        None => raw,
    };
    if user_list {
        Some(user_record(item))
    } else {
        aweme_record(item, kind)
    }
}

/// The results after taking in `items` one by one, and whether the limit
/// was reached on the way (which stops the crawl).
pub open spec fn absorb(results: Seq<JsonV>, items: Seq<JsonV>, kind: CrawlType, limit: nat) -> (
    Seq<JsonV>,
    bool,
)
    decreases items.len(),
{
    if items.len() == 0 {
        (results, false)
    } else {
        let next = match listed_record(items[0], kind) {
            Some(r) => results.push(r),
            None => results,
        };
        if limit > 0 && next.len() >= limit {
            (next, true)
        } else {
            absorb(next, items.drop_first(), kind, limit)
        }
    }
}

/// The state of a paged crawl between requests.
pub struct PageCrawl {
    pub kind: CrawlType,
    /// Most results to collect; 0 means no limit.
    pub limit: usize,
    pub cursor: i64,
    pub log_id: String,
    pub has_more: bool,
    /// An empty page ended the crawl.
    pub finished: bool,
    /// Failed or empty requests since the last good page.
    pub retries: u8,
    pub results: Vec<Json>,
}

impl PageCrawl {
    /// A crawl before its first page.
    pub fn new(kind: CrawlType, limit: usize) -> (r: PageCrawl)
        ensures
            r.kind == kind,
            r.limit == limit,
            r.cursor == 0,
            r.log_id@.len() == 0,
            r.has_more,
            !r.finished,
            r.retries == 0,
            r.results@.len() == 0,
    {
        PageCrawl {
            kind,
            limit,
            cursor: 0,
            log_id: String::new(),
            has_more: true,
            finished: false,
            retries: 0,
            results: Vec::new(),
        }
    }

    /// Another page is to be requested.
    pub fn wants_page(&self) -> (r: bool)
        ensures
            r == (!self.finished && self.has_more && !(self.limit > 0 && self.results@.len()
                >= self.limit)),
    {
        !self.finished && self.has_more && !limit_reached(self.results.len(), self.limit)
    }

    /// A request failed with `error`: it is retried up to nine times in a row,
    /// after which the error ends the crawl and is handed back.
    pub fn on_failure(&mut self, error: String) -> (r: Option<String>)
        ensures
            old(self).retries < 9 ==> r is None && final(self).retries == old(self).retries + 1,
            old(self).retries >= 9 ==> r == Some(error) && final(self).retries == old(self).retries,
            final(self).kind == old(self).kind,
            final(self).limit == old(self).limit,
            final(self).cursor == old(self).cursor,
            final(self).log_id == old(self).log_id,
            final(self).has_more == old(self).has_more,
            final(self).finished == old(self).finished,
            final(self).results == old(self).results,
    {
        if self.retries < 9 {
            self.retries = self.retries + 1;
            None
        } else {
            Some(error)
        }
    }

    /// Takes in a page that the API returned. A page resets the retry count;
    /// an empty page with more to come is asked for again as the first retry,
    /// and an empty last page ends the crawl.
    pub fn on_page(&mut self, resp: &Json)
        ensures
            final(self).kind == old(self).kind,
            final(self).limit == old(self).limit,
            final(self).cursor == next_cursor(resp.jv(), old(self).cursor),
            final(self).log_id@ == next_log_id(old(self).log_id@, resp.jv()),
            page_items(resp.jv()).len() == 0 ==> {
                &&& items_view(final(self).results@) == items_view(old(self).results@)
                &&& final(self).has_more == is_truthy(resp.jv().get("has_more"@))
                &&& final(self).retries == (if final(self).has_more {
                    1u8
                } else {
                    0u8
                })
                &&& final(self).finished == (old(self).finished || !final(self).has_more)
            },
            page_items(resp.jv()).len() > 0 ==> {
                let (results, stopped) = absorb(
                    items_view(old(self).results@),
                    page_items(resp.jv()),
                    old(self).kind,
                    old(self).limit as nat,
                );
                &&& items_view(final(self).results@) == results
                &&& final(self).has_more == (!stopped && is_truthy(resp.jv().get("has_more"@)))
                &&& final(self).retries == 0
                &&& final(self).finished == old(self).finished
            },
    {
        self.retries = 0;
        self.cursor = next_cursor_exec(resp, self.cursor);
        if self.log_id.as_str().is_empty() {
            self.log_id = match opt_get_str(resp) {
                Some(s) => s,
                None => String::new(),
            };
        }
        self.has_more = truthy(resp.get("has_more"));
        match page_items_exec(resp) {
            None => {
                if self.has_more {
                    self.retries = 1;
                } else {
                    self.finished = true;
                }
            },
            Some(items) => {
                let stopped = self.absorb_items(items);
                if stopped {
                    self.has_more = false;
                }
            },
        }
    }

    /// Takes in the listed items; see [`absorb`].
    fn absorb_items(&mut self, items: &Vec<Json>) -> (stopped: bool)
        ensures
            (items_view(final(self).results@), stopped) == absorb(
                items_view(old(self).results@),
                items_view(items@),
                old(self).kind,
                old(self).limit as nat,
            ),
            final(self).kind == old(self).kind,
            final(self).limit == old(self).limit,
            final(self).cursor == old(self).cursor,
            final(self).log_id == old(self).log_id,
            final(self).has_more == old(self).has_more,
            final(self).finished == old(self).finished,
            final(self).retries == old(self).retries,
    {
        let ghost iv = items_view(items@);
        let ghost goal = absorb(items_view(self.results@), iv, self.kind, self.limit as nat);
        let user_list = self.kind.is_user_list();
        let mut i: usize = 0;
        assert(iv.skip(0) =~= iv);
        while i < items.len()
            invariant
                i <= items.len(),
                iv == items_view(items@),
                user_list == (self.kind == CrawlType::Following || self.kind == CrawlType::Follower),
                self.kind == old(self).kind,
                self.limit == old(self).limit,
                self.cursor == old(self).cursor,
                self.log_id == old(self).log_id,
                self.has_more == old(self).has_more,
                self.finished == old(self).finished,
                self.retries == old(self).retries,
                goal == absorb(items_view(self.results@), iv.skip(i as int), self.kind, self.limit as nat),
                goal == absorb(items_view(old(self).results@), iv, old(self).kind, old(self).limit as nat),
            decreases items.len() - i,
        {
            assert(iv.skip(i as int)[0] == items@[i as int].jv());
            assert(iv.skip(i as int).drop_first() =~= iv.skip(i + 1));
            let raw = &items[i];
            let item = match raw.get(if user_list { "user_info" } else { "aweme_info" }) {
                Some(x) => x,
                None => raw,
            };
            let parsed = if user_list {
                Some(parse_user(item))
            } else {
                parse_aweme(item, self.kind)
            };
            let ghost rest = iv.skip(i as int);
            let ghost prior = items_view(self.results@);
            assert(parsed matches Some(p) ==> listed_record(rest[0], self.kind) == Some(p.jv()));
            assert(parsed is None ==> listed_record(rest[0], self.kind) is None);
            match parsed {
                Some(p) => {
                    let ghost before = self.results@;
                    self.results.push(p);
                    assert(items_view(self.results@) =~= items_view(before).push(p.jv()));
                },
                None => {},
            }
            let ghost next = match listed_record(rest[0], self.kind) {
                Some(r) => prior.push(r),
                None => prior,
            };
            assert(items_view(self.results@) == next);
            if limit_reached(self.results.len(), self.limit) {
                assert(goal == (next, true));
                return true;
            }
            i = i + 1;
        }
        false
    }
}

fn next_cursor_exec(resp: &Json, cursor: i64) -> (r: i64)
    ensures
        r == next_cursor(resp.jv(), cursor),
{
    match nonzero_int_exec(resp.get("max_cursor")) {
        Some(n) => n,
        None => match nonzero_int_exec(resp.get("cursor")) {
            Some(n) => n,
            None => match nonzero_int_exec(resp.get("min_time")) {
                Some(n) => n,
                None => cursor,
            },
        },
    }
}

fn nonzero_int_exec(v: Option<&Json>) -> (r: Option<i64>)
    ensures
        r == nonzero_int(
            match v {
                Some(x) => Some(x.jv()),
                None => None,
            },
        ),
{
    match v {
        Some(x) => match value_i64(x) {
            Some(n) => if n != 0 {
                Some(n)
            } else {
                None
            },
            None => None,
        },
        None => None,
    }
}

fn opt_get_str(resp: &Json) -> (r: Option<String>)
    ensures
        r matches Some(s) ==> next_log_id(Seq::empty(), resp.jv()) == s@,
        r is None ==> next_log_id(Seq::empty(), resp.jv()) == Seq::<char>::empty(),
{
    match resp.get("log_pb") {
        Some(pb) => match pb.get("impr_id") {
            Some(v) => match v.as_str() {
                Some(s) => Some(s.clone()),
                None => None,
            },
            None => None,
        },
        None => None,
    }
}

fn nonempty_list_exec(v: Option<&Json>) -> (r: Option<&Vec<Json>>)
    ensures
        r matches Some(a) ==> nonempty_list(
            match v {
                Some(x) => Some(x.jv()),
                None => None,
            },
        ) == Some(items_view(a@)),
        r is None ==> nonempty_list(
            match v {
                Some(x) => Some(x.jv()),
                None => None,
            },
        ) is None,
{
    match v {
        Some(x) => match x.as_array() {
            Some(a) => {
                assert(items_view(a@) =~= Seq::new(a@.len(), |i: int| a@[i].jv()));
                if a.len() > 0 {
                    Some(a)
                } else {
                    None
                }
            },
            None => None,
        },
        None => None,
    }
}

fn page_items_exec(resp: &Json) -> (r: Option<&Vec<Json>>)
    ensures
        r matches Some(a) ==> page_items(resp.jv()) == items_view(a@) && a@.len() > 0,
        r is None ==> page_items(resp.jv()).len() == 0,
{
    match nonempty_list_exec(resp.get("aweme_list")) {
        Some(a) => Some(a),
        None => match nonempty_list_exec(resp.get("user_list")) {
            Some(a) => Some(a),
            None => match nonempty_list_exec(resp.get("data")) {
                Some(a) => Some(a),
                None => match nonempty_list_exec(resp.get("followings")) {
                    Some(a) => Some(a),
                    None => nonempty_list_exec(resp.get("followers")),
                },
            },
        },
    }
}

} // verus!
