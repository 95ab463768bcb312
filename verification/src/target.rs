//! Crawl targets: what a command-line input names, and where its page lives.
use vstd::prelude::*;
use crate::crawler::CrawlType;
use crate::json::str_eq;
use crate::text::{
    all_ascii_digits, all_digits, chars_of, join_str, occurs_at, occurs_at_exec, starts_with,
    string_of,
};

verus! {

broadcast use vstd::string::group_string_axioms;

/// `s.ends_with(pat)`.
pub open spec fn ends_with(s: Seq<char>, pat: Seq<char>) -> bool {
    occurs_at(s, pat, s.len() - pat.len())
}

/// Executable form of [`ends_with`].
pub fn ends_with_chars(s: &[char], pat: &[char]) -> (r: bool)
    ensures
        r == ends_with(s@, pat@),
{
    if pat.len() > s.len() {
        false
    } else {
        occurs_at_exec(s, pat, s.len() - pat.len())
    }
}

/// The parts of a parsed URL that the library reads.
pub struct UrlParts {
    /// The scheme, such as `https`.
    pub scheme: String,
    /// The host, when the URL has one.
    pub host: Option<String>,
    /// The port, or the scheme's known default port.
    pub port: Option<u16>,
    /// The path, percent-encoded.
    pub path: String,
    /// The path segments; none for a URL that cannot be a base.
    pub segments: Vec<String>,
    /// The query's key/value pairs, decoded, in order.
    pub query: Vec<(String, String)>,
    /// The ASCII serialization of the origin (`scheme://host[:port]`).
    pub origin: String,
    /// The URL as text.
    pub serialized: String,
}

/// The plain value of [`UrlParts`].
pub struct UrlView {
    pub scheme: Seq<char>,
    pub host: Option<Seq<char>>,
    pub port: Option<u16>,
    pub path: Seq<char>,
    pub segments: Seq<Seq<char>>,
    pub query: Seq<(Seq<char>, Seq<char>)>,
    pub origin: Seq<char>,
    pub serialized: Seq<char>,
}

/// The view of an optional string.
pub open spec fn opt_str_view(s: Option<String>) -> Option<Seq<char>> {
    match s {
        Some(x) => Some(x@),
        None => None,
    }
}

/// The views of a list of strings.
pub open spec fn strings_view(v: Seq<String>) -> Seq<Seq<char>> {
    Seq::new(v.len(), |i: int| v[i]@)
}

/// The views of a list of string pairs.
pub open spec fn string_pairs(v: Seq<(String, String)>) -> Seq<(Seq<char>, Seq<char>)> {
    Seq::new(v.len(), |i: int| (v[i].0@, v[i].1@))
}

impl UrlParts {
    /// The plain value of the parts.
    pub open spec fn parts(&self) -> UrlView {
        UrlView {
            scheme: self.scheme@,
            host: opt_str_view(self.host),
            port: self.port,
            path: self.path@,
            segments: strings_view(self.segments@),
            query: string_pairs(self.query@),
            origin: self.origin@,
            serialized: self.serialized@,
        }
    }
}

/// The parts of `input` parsed as a URL, or the parse error's text when
/// `input` is no URL; what `url::Url::parse` gives.
pub uninterp spec fn parsed_url(input: Seq<char>) -> Result<UrlView, Seq<char>>;

/// The text that percent-decoding `s` gives, invalid UTF-8 replaced.
pub uninterp spec fn percent_decoded(s: Seq<char>) -> Seq<char>;

/// `url::Url::parse(input)`, reduced to the parts of [`UrlParts`], or the
/// text of the parse error. The result is the named [`parsed_url`] of the
/// input: nothing more of URL parsing is stated.
#[verifier::external_body]
pub(crate) fn parse_url(input: &str) -> (r: Result<UrlParts, String>)
    ensures
        r matches Ok(p) ==> (parsed_url(input@) matches Ok(v) && v == p.parts()),
        r matches Err(e) ==> (parsed_url(input@) matches Err(m) && m == e@),
{
    match url::Url::parse(input) {
        Ok(url) => Ok(UrlParts {
            scheme: url.scheme().to_owned(),
            host: url.host_str().map(str::to_owned),
            port: url.port_or_known_default(),
            path: url.path().to_owned(),
            segments: url.path_segments().map(|parts| parts.map(str::to_owned).collect()).unwrap_or_default(),
            query: url.query_pairs().into_owned().collect(),
            origin: url.origin().ascii_serialization(),
            serialized: url.as_str().to_owned(),
        }),
        Err(error) => Err(error.to_string()),
    }
}

/// `percent_encoding::percent_decode_str(s).decode_utf8_lossy()`: every `%`
/// followed by two hex digits becomes the byte it encodes; a text without `%`
/// comes back unchanged. The rest of the decoding is the named
/// [`percent_decoded`] of the input.
#[verifier::external_body]
fn percent_decode(s: &str) -> (r: String)
    ensures
        r@ == percent_decoded(s@),
        !s@.contains('%') ==> r@ == s@,
{
    percent_encoding::percent_decode_str(s).decode_utf8_lossy().into_owned()
}

/// A crawl target: an ID, the page that shows it and the crawl type it calls for.
pub struct Target {
    pub id: String,
    pub url: String,
    pub kind: CrawlType,
}

/// What to do with a command-line target.
pub enum TargetPlan {
    /// The target is known.
    Ready(Target),
    /// The target is the logged-in account: its `secUid` comes from its page.
    OwnAccount,
    /// A short link: follow its redirect, then read the final URL.
    Redirect(String),
}

/// The plain value of a plan.
pub enum PlanView {
    Ready(Seq<char>, Seq<char>, CrawlType),
    OwnAccount,
    Redirect(Seq<char>),
}

impl TargetPlan {
    /// The plain value of the plan.
    pub open spec fn plan(&self) -> PlanView {
        match self {
            TargetPlan::Ready(t) => PlanView::Ready(t.id@, t.url@, t.kind),
            TargetPlan::OwnAccount => PlanView::OwnAccount,
            TargetPlan::Redirect(u) => PlanView::Redirect(u@),
        }
    }
}

/// The plain value of a planning outcome.
pub open spec fn outcome(r: Result<TargetPlan, String>) -> Result<PlanView, Seq<char>> {
    match r {
        Ok(p) => Ok(p.plan()),
        Err(e) => Err(e@),
    }
}

/// The target named by the path of a douyin.com URL: the decoded last
/// non-empty segment is the ID, the segment before it the crawl type.
pub open spec fn path_target(input: Seq<char>, segments: Seq<Seq<char>>, url: Seq<char>, requested: CrawlType) -> Result<
    PlanView,
    Seq<char>,
> {
    let parts = nonempty(segments);
    let id = percent_decoded(last_or_empty(parts));
    if id.len() == 0 {
        Err("无法从链接识别目标 ID: "@ + input)
    } else {
        Ok(PlanView::Ready(id, url, marker_kind(marker_of(parts), requested)))
    }
}

/// The plan for a URL: only douyin.com hosts are accepted, and short links
/// on v.douyin.com are followed first.
pub open spec fn url_plan(
    input: Seq<char>,
    parts: UrlView,
    requested: CrawlType,
) -> Result<PlanView, Seq<char>> {
    match parts.host {
        Some(host) => if !ends_with(host, "douyin.com"@) {
            Err("目标不是抖音链接: "@ + input)
        } else if host == "v.douyin.com"@ {
            Ok(PlanView::Redirect(parts.serialized))
        } else {
            path_target(input, parts.segments, parts.serialized, requested)
        },
        None => Err("目标不是抖音链接: "@ + input),
    }
}

/// The plan for a command-line target: the own account when empty, a URL
/// when it parses as one, an ID or keyword otherwise.
pub open spec fn target_plan(input: Seq<char>, requested: CrawlType) -> Result<PlanView, Seq<char>> {
    if input.len() == 0 {
        Ok(PlanView::OwnAccount)
    } else {
        match parsed_url(input) {
            Ok(parts) => url_plan(input, parts, requested),
            Err(_) => if plain_valid(input, requested) {
                Ok(PlanView::Ready(input, plain_url(input, requested), requested))
            } else {
                Err("目标输入错误: "@ + input)
            },
        }
    }
}

/// The page of the logged-in account.
pub open spec fn own_account_url() -> Seq<char> {
    "https://www.douyin.com/user/self"@
}

/// The prefix of every account ID.
pub open spec fn user_id_prefix() -> Seq<char> {
    "MS4wLjABAAAA"@
}

/// A plain (non-URL) input is a valid target of the requested type: any text
/// for a search, digits for works, music, topics and collections, an account
/// ID otherwise.
pub open spec fn plain_valid(input: Seq<char>, requested: CrawlType) -> bool {
    match requested {
        CrawlType::Search => true,
        CrawlType::Aweme | CrawlType::Music | CrawlType::Hashtag | CrawlType::Mix => all_digits(input),
        _ => starts_with(input, user_id_prefix()),
    }
}

/// The page URL of a plain input.
pub open spec fn plain_url(input: Seq<char>, requested: CrawlType) -> Seq<char> {
    match requested {
        CrawlType::Search => "https://www.douyin.com/search/"@ + input,
        CrawlType::Aweme => "https://www.douyin.com/note/"@ + input,
        CrawlType::Mix => "https://www.douyin.com/collection/"@ + input,
        CrawlType::Music => "https://www.douyin.com/music/"@ + input,
        CrawlType::Hashtag => "https://www.douyin.com/hashtag/"@ + input,
        _ => "https://www.douyin.com/user/"@ + input,
    }
}

/// The crawl type a URL calls for, by the path segment before its ID.
pub open spec fn marker_kind(marker: Seq<char>, requested: CrawlType) -> CrawlType {
    if marker == "video"@ || marker == "note"@ {
        CrawlType::Aweme
    } else if marker == "music"@ {
        CrawlType::Music
    } else if marker == "hashtag"@ {
        CrawlType::Hashtag
    } else if marker == "collection"@ {
        CrawlType::Mix
    } else if marker == "search"@ {
        CrawlType::Search
    } else {
        requested
    }
}

/// The non-empty segments of a path, in order.
pub open spec fn nonempty(segments: Seq<Seq<char>>) -> Seq<Seq<char>>
    decreases segments.len(),
{
    if segments.len() == 0 {
        Seq::empty()
    } else {
        let before = nonempty(segments.drop_last());
        if segments.last().len() == 0 {
            before
        } else {
            before.push(segments.last())
        }
    }
}

/// The last segment, or the empty text.
pub open spec fn last_or_empty(parts: Seq<Seq<char>>) -> Seq<char> {
    if parts.len() > 0 {
        parts.last()
    } else {
        Seq::empty()
    }
}

/// The segment before the last one, or the empty text.
pub open spec fn marker_of(parts: Seq<Seq<char>>) -> Seq<char> {
    if parts.len() > 1 {
        parts[parts.len() - 2]
    } else {
        Seq::empty()
    }
}

impl Target {
    /// The plain value of a target.
    pub open spec fn parts(&self) -> (Seq<char>, Seq<char>, CrawlType) {
        (self.id@, self.url@, self.kind)
    }

    /// The target of the logged-in account, once its `secUid` is known.
    pub fn own_account(uid: String, requested: CrawlType) -> (r: Target)
        ensures
            r.parts() == (uid@, own_account_url(), requested),
    {
        Target { id: uid, url: "https://www.douyin.com/user/self".to_owned(), kind: requested }
    }

    /// A target given by its ID or keyword rather than a URL.
    pub fn from_plain(input: &str, requested: CrawlType) -> (r: Result<Target, String>)
        ensures
            r matches Ok(t) ==> plain_valid(input@, requested) && t.parts() == (
                input@,
                plain_url(input@, requested),
                requested,
            ),
            r matches Err(e) ==> !plain_valid(input@, requested) && e@ == "目标输入错误: "@
                + input@,
    {
        let chars = chars_of(input);
        let prefix = chars_of("MS4wLjABAAAA");
        let valid = match requested {
            CrawlType::Search => true,
            CrawlType::Aweme | CrawlType::Music | CrawlType::Hashtag | CrawlType::Mix => {
                all_ascii_digits(chars.as_slice())
            },
            _ => occurs_at_exec(chars.as_slice(), prefix.as_slice(), 0),
        };
        if !valid {
            return Err(join_str("目标输入错误: ", input));
        }
        let url = match requested {
            CrawlType::Search => join_str("https://www.douyin.com/search/", input),
            CrawlType::Aweme => join_str("https://www.douyin.com/note/", input),
            CrawlType::Mix => join_str("https://www.douyin.com/collection/", input),
            CrawlType::Music => join_str("https://www.douyin.com/music/", input),
            CrawlType::Hashtag => join_str("https://www.douyin.com/hashtag/", input),
            _ => join_str("https://www.douyin.com/user/", input),
        };
        Ok(Target { id: input.to_owned(), url, kind: requested })
    }

    /// A target read from a URL path once its last non-empty segment is
    /// decoded: the segment before it picks the crawl type.
    pub fn from_decoded(
        input: &str,
        decoded_id: String,
        marker: &str,
        url: String,
        requested: CrawlType,
    ) -> (r: Result<Target, String>)
        ensures
            r matches Ok(t) ==> decoded_id@.len() > 0 && t.parts() == (
                decoded_id@,
                url@,
                marker_kind(marker@, requested),
            ),
            r matches Err(e) ==> decoded_id@.len() == 0 && e@ == "无法从链接识别目标 ID: "@
                + input@,
    {
        let kind = if str_eq(marker, "video") || str_eq(marker, "note") {
            CrawlType::Aweme
        } else if str_eq(marker, "music") {
            CrawlType::Music
        } else if str_eq(marker, "hashtag") {
            CrawlType::Hashtag
        } else if str_eq(marker, "collection") {
            CrawlType::Mix
        } else if str_eq(marker, "search") {
            CrawlType::Search
        } else {
            requested
        };
        if decoded_id.as_str().is_empty() {
            return Err(join_str("无法从链接识别目标 ID: ", input));
        }
        Ok(Target { id: decoded_id, url, kind })
    }

    /// A target read from the path of a douyin.com URL; see [`path_target`].
    pub fn from_path(input: &str, parts: UrlParts, requested: CrawlType) -> (r: Result<Target, String>)
        ensures
            match path_target(input@, strings_view(parts.segments@), parts.serialized@, requested) {
                Ok(p) => r matches Ok(t) && p == PlanView::Ready(t.id@, t.url@, t.kind),
                Err(e) => r matches Err(m) && m@ == e,
            },
    {
        let segs = parts.segments;
        let ghost sv = strings_view(segs@);
        let mut kept: Vec<&str> = Vec::new();
        let mut i: usize = 0;
        assert(sv.take(0) =~= Seq::<Seq<char>>::empty());
        while i < segs.len()
            invariant
                i <= segs.len(),
                sv == strings_view(segs@),
                Seq::new(kept@.len(), |k: int| kept@[k]@) == nonempty(sv.take(i as int)),
            decreases segs.len() - i,
        {
            assert(sv.take(i + 1).drop_last() =~= sv.take(i as int));
            assert(sv.take(i + 1).last() == segs@[i as int]@);
            if !segs[i].as_str().is_empty() {
                let ghost before = kept@;
                kept.push(segs[i].as_str());
                assert(Seq::new(kept@.len(), |k: int| kept@[k]@) =~= Seq::new(
                    before.len(),
                    |k: int| before[k]@,
                ).push(segs@[i as int]@));
            }
            i = i + 1;
        }
        assert(sv.take(segs.len() as int) =~= sv);
        let ghost ne = nonempty(sv);
        assert(ne.len() == kept@.len());
        proof {
            reveal_strlit("");
        }
        let last: &str = if kept.len() > 0 {
            assert(ne.last() == kept@[kept@.len() - 1]@);
            kept[kept.len() - 1]
        } else {
            ""
        };
        let marker: &str = if kept.len() > 1 {
            assert(ne[ne.len() - 2] == kept@[kept@.len() - 2]@);
            kept[kept.len() - 2]
        } else {
            ""
        };
        assert(last@ == last_or_empty(ne));
        assert(marker@ == marker_of(ne));
        let decoded = percent_decode(last);
        Target::from_decoded(input, decoded, marker, parts.serialized, requested)
    }

    /// The plan for an input that parsed as a URL; see [`url_plan`].
    pub fn from_url(input: &str, parts: UrlParts, requested: CrawlType) -> (r: Result<TargetPlan, String>)
        ensures
            outcome(r) == url_plan(input@, parts.parts(), requested),
    {
        let suffix = chars_of("douyin.com");
        let on_site = match &parts.host {
            Some(h) => ends_with_chars(chars_of(h.as_str()).as_slice(), suffix.as_slice()),
            None => false,
        };
        if !on_site {
            return Err(join_str("目标不是抖音链接: ", input));
        }
        let short = match &parts.host {
            Some(h) => str_eq(h.as_str(), "v.douyin.com"),
            None => false,
        };
        if short {
            return Ok(TargetPlan::Redirect(parts.serialized));
        }
        match Target::from_path(input, parts, requested) {
            Ok(t) => Ok(TargetPlan::Ready(t)),
            Err(e) => Err(e),
        }
    }

    /// What a command-line target names; see [`target_plan`].
    pub fn parse(input: &str, requested: CrawlType) -> (r: Result<TargetPlan, String>)
        ensures
            outcome(r) == target_plan(input@, requested),
    {
        if input.is_empty() {
            return Ok(TargetPlan::OwnAccount);
        }
        match parse_url(input) {
            Ok(parts) => Target::from_url(input, parts, requested),
            Err(_) => match Target::from_plain(input, requested) {
                Ok(t) => Ok(TargetPlan::Ready(t)),
                Err(e) => Err(e),
            },
        }
    }
}

} // verus!
