//! The official open-platform API: its base address, the checks a request
//! passes before it is sent, the requests of the OAuth flow, and the reading
//! of a reply.
use vstd::prelude::*;
use crate::cookie::string_pairs_view;
use crate::download::{join, texts};
use crate::json::{entries_view, insert_str, json_text, parsed_json, set_entry, Json, JsonV};
use crate::target::{parse_url, parsed_url, UrlParts, UrlView};
use crate::text::{append_chars, chars_of, join_str, string_of};
use crate::web::{encode_query, query_text};

verus! {

broadcast use vstd::string::group_string_axioms;

/// The address of the official open platform.
pub open spec fn base_url() -> Seq<char> {
    "https://open.douyin.com"@
}

/// The root of the URL `input`: its path set to `/`, without query or fragment.
pub uninterp spec fn url_root(input: Seq<char>) -> Seq<char>;

/// What joining the reference `path` onto the URL `base` gives, as text, or
/// the text of the error.
pub uninterp spec fn joined_url(base: Seq<char>, path: Seq<char>) -> Result<Seq<char>, Seq<char>>;

/// Why `method` is no HTTP method, when it is none.
pub uninterp spec fn method_error(method: Seq<char>) -> Option<Seq<char>>;

/// `url::Url::parse(input)` followed by `set_path("/")`, `set_query(None)` and
/// `set_fragment(None)`, as text. The text is the named [`url_root`] of the
/// input; that it parses again is all that is stated of it.
#[verifier::external_body]
fn root_url(input: &str) -> (r: String)
    requires
        parsed_url(input@) is Ok,
    ensures
        r@ == url_root(input@),
        parsed_url(r@) is Ok,
{
    match url::Url::parse(input) {
        Ok(mut url) => {
            url.set_path("/");
            url.set_query(None);
            url.set_fragment(None);
            url.as_str().to_owned()
        },
        Err(_) => input.to_owned(),
    }
}

/// `url::Url::parse(base)` then `join(path)`, as text, or the text of the
/// join's error; the named [`joined_url`].
#[verifier::external_body]
fn join_url(base: &str, path: &str) -> (r: Result<String, String>)
    requires
        parsed_url(base@) is Ok,
    ensures
        r matches Ok(u) ==> (joined_url(base@, path@) matches Ok(t) && t == u@),
        r matches Err(e) ==> (joined_url(base@, path@) matches Err(m) && m == e@),
{
    let url = match url::Url::parse(base) {
        Ok(url) => url,
        Err(error) => return Err(error.to_string()),
    };
    match url.join(path) {
        Ok(joined) => Ok(joined.as_str().to_owned()),
        Err(error) => Err(error.to_string()),
    }
}

/// `method.parse::<reqwest::Method>()`: `None` when it parses, else the text
/// of the error; the named [`method_error`].
#[verifier::external_body]
fn check_method(method: &str) -> (r: Option<String>)
    ensures
        r matches Some(e) ==> method_error(method@) == Some(e@),
        r is None ==> method_error(method@) is None,
{
    match method.parse::<reqwest::Method>() {
        Ok(_) => None,
        Err(error) => Some(error.to_string()),
    }
}

/// A request to the open platform, as the caller describes it.
pub struct RequestSpec {
    pub method: String,
    pub path: String,
    pub token: Option<String>,
    pub params: Option<Vec<(String, String)>>,
    pub json_body: Option<Json>,
    pub form: Option<Vec<(String, String)>>,
    pub headers: Option<Vec<(String, String)>>,
    pub auth_required: bool,
}

/// The plain value of optional string pairs.
pub open spec fn opt_pairs(v: Option<Vec<(String, String)>>) -> Option<Seq<(Seq<char>, Seq<char>)>> {
    match v {
        Some(p) => Some(string_pairs_view(p@)),
        None => None,
    }
}

/// The plain value of an optional document.
pub open spec fn opt_json(v: Option<Json>) -> Option<JsonV> {
    match v {
        Some(j) => Some(j.jv()),
        None => None,
    }
}

/// The plain value of a [`RequestSpec`].
pub struct RequestView {
    pub method: Seq<char>,
    pub path: Seq<char>,
    pub token: Option<Seq<char>>,
    pub params: Option<Seq<(Seq<char>, Seq<char>)>>,
    pub json_body: Option<JsonV>,
    pub form: Option<Seq<(Seq<char>, Seq<char>)>>,
    pub headers: Option<Seq<(Seq<char>, Seq<char>)>>,
    pub auth_required: bool,
}

impl RequestSpec {
    /// The plain value of the request.
    pub open spec fn view(&self) -> RequestView {
        RequestView {
            method: self.method@,
            path: self.path@,
            token: crate::target::opt_str_view(self.token),
            params: opt_pairs(self.params),
            json_body: opt_json(self.json_body),
            form: opt_pairs(self.form),
            headers: opt_pairs(self.headers),
            auth_required: self.auth_required,
        }
    }

    /// A request with the given method and path and nothing else.
    pub fn new(method: &str, path: &str) -> (r: RequestSpec)
        ensures
            r.view() == (RequestView {
                method: method@,
                path: path@,
                token: None,
                params: None,
                json_body: None,
                form: None,
                headers: None,
                auth_required: false,
            }),
    {
        RequestSpec {
            method: method.to_owned(),
            path: path.to_owned(),
            token: None,
            params: None,
            json_body: None,
            form: None,
            headers: None,
            auth_required: false,
        }
    }
}

/// A `POST` of a form that needs no token.
pub open spec fn form_request(path: Seq<char>, form: Seq<(Seq<char>, Seq<char>)>) -> RequestView {
    RequestView {
        method: "POST"@,
        path,
        token: None,
        params: None,
        json_body: None,
        form: Some(form),
        headers: None,
        auth_required: false,
    }
}

fn form_spec(path: &str, form: Vec<(String, String)>) -> (r: RequestSpec)
    ensures
        r.view() == form_request(path@, string_pairs_view(form@)),
{
    let mut r = RequestSpec::new("POST", path);
    r.form = Some(form);
    r
}

/// Whether two URLs share scheme, host and port.
pub open spec fn same_origin(left: UrlView, right: UrlView) -> bool {
    left.scheme == right.scheme && left.host == right.host && left.port == right.port
}

/// The client of a base URL: its root and parts, or why the URL is refused.
pub open spec fn base_client(input: Seq<char>) -> Result<(Seq<char>, UrlView), Seq<char>> {
    match parsed_url(input) {
        Err(m) => Err("OpenAPI base URL 无效: "@ + m),
        Ok(v) => if (v.scheme == "http"@ || v.scheme == "https"@) && v.host is Some {
            Ok((url_root(input), v))
        } else {
            Err("OpenAPI base URL 必须是有效的 HTTP(S) 地址"@)
        },
    }
}

/// The URL a request path resolves to against a client, or why it is refused:
/// only the client's own origin is reached.
pub open spec fn resolved(root: Seq<char>, origin: UrlView, path: Seq<char>) -> Result<Seq<char>, Seq<char>> {
    match joined_url(root, path) {
        Err(m) => Err("OpenAPI path 无效: "@ + m),
        Ok(text) => match parsed_url(text) {
            Err(m) => Err("OpenAPI path 无效: "@ + m),
            Ok(v) => if same_origin(origin, v) {
                Ok(text)
            } else {
                Err("拒绝跨域 OpenAPI 请求: "@ + v.origin)
            },
        },
    }
}

/// The parameters of the authorization link.
pub open spec fn authorize_params(
    client_key: Seq<char>,
    redirect_uri: Seq<char>,
    scopes: Seq<Seq<char>>,
    state: Option<Seq<char>>,
) -> Seq<(Seq<char>, Seq<char>)> {
    let base = seq![
        ("client_key"@, client_key),
        ("response_type"@, "code"@),
        ("scope"@, join(scopes, ","@)),
        ("redirect_uri"@, redirect_uri),
    ];
    match state {
        Some(s) => base.push(("state"@, s)),
        None => base,
    }
}

/// Whether a request carries no token, or an empty one.
pub open spec fn no_token(token: Option<Seq<char>>) -> bool {
    match token {
        Some(t) => t.len() == 0,
        None => true,
    }
}

/// Why a request cannot be sent, checked in order: a missing token, a bad
/// method, a path that leaves the client's origin; else the URL it goes to.
pub open spec fn request_target(root: Seq<char>, origin: UrlView, spec: RequestView) -> Result<Seq<char>, Seq<char>> {
    if spec.auth_required && no_token(spec.token) {
        Err("调用 OpenAPI 需要 access-token 或 client-token"@)
    } else {
        match method_error(spec.method) {
            Some(e) => Err("HTTP method 无效: "@ + e),
            None => resolved(root, origin, spec.path),
        }
    }
}

/// The at most 2000 first characters of a reply, marked when cut.
pub open spec fn excerpt(body: Seq<char>) -> Seq<char> {
    if body.len() <= 2000 {
        body
    } else {
        body.take(2000) + "…（响应已截断）"@
    }
}

/// What a reply gives: its document when the status is a success and the body
/// a JSON object, else the error the caller sees.
pub open spec fn reply_value(status_ok: bool, status: Seq<char>, body: Seq<char>) -> Result<JsonV, Seq<char>> {
    if !status_ok {
        Err("OpenAPI HTTP 请求失败: "@ + status + " "@ + excerpt(body))
    } else {
        match parsed_json(body) {
            Err(_) => Err("OpenAPI 响应不是 JSON: "@ + excerpt(body)),
            Ok(v) => if v is Obj {
                Ok(v)
            } else {
                Err("OpenAPI 响应不是 JSON object"@)
            },
        }
    }
}

/// The plain value of a reply's outcome.
pub open spec fn json_outcome(r: Result<Json, String>) -> Result<JsonV, Seq<char>> {
    match r {
        Ok(j) => Ok(j.jv()),
        Err(e) => Err(e@),
    }
}

/// The plain value of a text outcome.
pub open spec fn text_outcome(r: Result<String, String>) -> Result<Seq<char>, Seq<char>> {
    match r {
        Ok(s) => Ok(s@),
        Err(e) => Err(e@),
    }
}

/// The body of a private message: `content` travels as its compact JSON text.
pub open spec fn im_body(
    to_user_id: Seq<char>,
    message_type: Seq<char>,
    content: JsonV,
    persona_id: Option<Seq<char>>,
    client_msg_id: Option<Seq<char>>,
) -> JsonV {
    let e0 = set_entry(Seq::empty(), "to_user_id"@, JsonV::Str(to_user_id));
    let e1 = set_entry(e0, "message_type"@, JsonV::Str(message_type));
    let e2 = set_entry(e1, "content"@, JsonV::Str(json_text(content)));
    let e3 = match persona_id {
        Some(p) => set_entry(e2, "persona_id"@, JsonV::Str(p)),
        None => e2,
    };
    let e4 = match client_msg_id {
        Some(c) => set_entry(e3, "client_msg_id"@, JsonV::Str(c)),
        None => e3,
    };
    JsonV::Obj(e4)
}

/// The client of the open platform: the root of its base URL and the origin
/// every request must stay on.
pub struct OpenApiClient {
    root: String,
    origin: UrlParts,
}

impl OpenApiClient {
    #[verifier::type_invariant]
    spec fn inv(self) -> bool {
        parsed_url(self.root@) is Ok
    }

    /// The root of the base URL.
    pub closed spec fn root(&self) -> Seq<char> {
        self.root@
    }

    /// The parts of the base URL that fix the origin.
    pub closed spec fn origin(&self) -> UrlView {
        self.origin.parts()
    }

    /// The client of the official platform address.
    pub fn new() -> (r: Result<OpenApiClient, String>)
        ensures
            client_outcome(r) == base_client(base_url()),
    {
        let r = OpenApiClient::with_base_url("https://open.douyin.com");
        proof {
            reveal_strlit("https://open.douyin.com");
        }
        r
    }

    /// The client of a base URL, which must be an HTTP(S) URL with a host.
    pub fn with_base_url(base_url: &str) -> (r: Result<OpenApiClient, String>)
        ensures
            client_outcome(r) == base_client(base_url@),
    {
        match parse_url(base_url) {
            Err(e) => Err(join_str("OpenAPI base URL 无效: ", e.as_str())),
            Ok(parts) => {
                let web = crate::json::str_eq(parts.scheme.as_str(), "http")
                    || crate::json::str_eq(parts.scheme.as_str(), "https");
                if !web || parts.host.is_none() {
                    return Err("OpenAPI base URL 必须是有效的 HTTP(S) 地址".to_owned());
                }
                let root = root_url(base_url);
                Ok(OpenApiClient { root, origin: parts })
            },
        }
    }

    /// The URL a request path resolves to; see [`resolved`].
    pub fn url(&self, path: &str) -> (r: Result<String, String>)
        ensures
            text_outcome(r) == resolved(self.root(), self.origin(), path@),
    {
        proof {
            use_type_invariant(self);
        }
        match join_url(self.root.as_str(), path) {
            Err(e) => Err(join_str("OpenAPI path 无效: ", e.as_str())),
            Ok(text) => match parse_url(text.as_str()) {
                Err(e) => Err(join_str("OpenAPI path 无效: ", e.as_str())),
                Ok(v) => {
                    let same = crate::json::str_eq(self.origin.scheme.as_str(), v.scheme.as_str())
                        && same_opt_text(&self.origin.host, &v.host) && same_port(self.origin.port, v.port);
                    if same {
                        Ok(text)
                    } else {
                        Err(join_str("拒绝跨域 OpenAPI 请求: ", v.origin.as_str()))
                    }
                },
            },
        }
    }

    /// The official authorization link for `client_key`; see [`authorize_params`].
    pub fn authorize_url(
        &self,
        client_key: &str,
        redirect_uri: &str,
        scopes: &Vec<String>,
        state: Option<&str>,
    ) -> (r: Result<String, String>)
        ensures
            text_outcome(r) == match resolved(self.root(), self.origin(), "/platform/oauth/connect/"@) {
                Ok(u) => Ok(u + "?"@ + query_text(
                    authorize_params(client_key@, redirect_uri@, texts(scopes@), opt_text(state)),
                )),
                Err(e) => Err(e),
            },
    {
        let url = match self.url("/platform/oauth/connect/") {
            Ok(u) => u,
            Err(e) => {
                proof {
                    reveal_strlit("/platform/oauth/connect/");
                }
                return Err(e);
            },
        };
        let mut params: Vec<(String, String)> = Vec::new();
        params.push(("client_key".to_owned(), client_key.to_owned()));
        params.push(("response_type".to_owned(), "code".to_owned()));
        params.push(("scope".to_owned(), join_texts(scopes, ",")));
        params.push(("redirect_uri".to_owned(), redirect_uri.to_owned()));
        match state {
            Some(s) => params.push(("state".to_owned(), s.to_owned())),
            None => {},
        }
        proof {
            reveal_strlit("client_key");
            reveal_strlit("response_type");
            reveal_strlit("code");
            reveal_strlit("scope");
            reveal_strlit("redirect_uri");
            reveal_strlit("state");
            reveal_strlit(",");
            reveal_strlit("/platform/oauth/connect/");
            assert(string_pairs_view(params@) =~= authorize_params(
                client_key@,
                redirect_uri@,
                texts(scopes@),
                opt_text(state),
            ));
        }
        let query = encode_query(&params);
        let mut out = chars_of(url.as_str());
        out.push('?');
        append_chars(&mut out, chars_of(query.as_str()).as_slice());
        proof {
            reveal_strlit("?");
            assert(out@ =~= url@ + "?"@ + query@);
        }
        Ok(string_of(out.as_slice()))
    }

    /// The URL a request goes to, or why it is refused before anything is
    /// sent; see [`request_target`].
    pub fn request_url(&self, spec: &RequestSpec) -> (r: Result<String, String>)
        ensures
            text_outcome(r) == request_target(self.root(), self.origin(), spec.view()),
    {
        if spec.auth_required {
            let missing = match &spec.token {
                Some(t) => t.as_str().is_empty(),
                None => true,
            };
            if missing {
                return Err("调用 OpenAPI 需要 access-token 或 client-token".to_owned());
            }
        }
        match check_method(spec.method.as_str()) {
            Some(e) => Err(join_str("HTTP method 无效: ", e.as_str())),
            None => self.url(spec.path.as_str()),
        }
    }

    /// The request for a client token.
    pub fn client_token(&self, client_key: &str, client_secret: &str) -> (r: RequestSpec)
        ensures
            r.view() == form_request(
                "/oauth/client_token/"@,
                seq![
                    ("client_key"@, client_key@),
                    ("client_secret"@, client_secret@),
                    ("grant_type"@, "client_credential"@),
                ],
            ),
    {
        let form = vec![
            ("client_key".to_owned(), client_key.to_owned()),
            ("client_secret".to_owned(), client_secret.to_owned()),
            ("grant_type".to_owned(), "client_credential".to_owned()),
        ];
        proof {
            assert(string_pairs_view(form@) =~= seq![
                ("client_key"@, client_key@),
                ("client_secret"@, client_secret@),
                ("grant_type"@, "client_credential"@),
            ]);
        }
        form_spec("/oauth/client_token/", form)
    }

    /// The request that trades an authorization code for an access token.
    pub fn access_token(&self, client_key: &str, client_secret: &str, code: &str) -> (r: RequestSpec)
        ensures
            r.view() == form_request(
                "/oauth/access_token/"@,
                seq![
                    ("client_key"@, client_key@),
                    ("client_secret"@, client_secret@),
                    ("code"@, code@),
                    ("grant_type"@, "authorization_code"@),
                ],
            ),
    {
        let form = vec![
            ("client_key".to_owned(), client_key.to_owned()),
            ("client_secret".to_owned(), client_secret.to_owned()),
            ("code".to_owned(), code.to_owned()),
            ("grant_type".to_owned(), "authorization_code".to_owned()),
        ];
        proof {
            assert(string_pairs_view(form@) =~= seq![
                ("client_key"@, client_key@),
                ("client_secret"@, client_secret@),
                ("code"@, code@),
                ("grant_type"@, "authorization_code"@),
            ]);
        }
        form_spec("/oauth/access_token/", form)
    }

    /// The request that refreshes an access token.
    pub fn refresh_token(&self, client_key: &str, refresh_token: &str) -> (r: RequestSpec)
        ensures
            r.view() == form_request(
                "/oauth/refresh_token/"@,
                seq![
                    ("client_key"@, client_key@),
                    ("grant_type"@, "refresh_token"@),
                    ("refresh_token"@, refresh_token@),
                ],
            ),
    {
        let form = vec![
            ("client_key".to_owned(), client_key.to_owned()),
            ("grant_type".to_owned(), "refresh_token".to_owned()),
            ("refresh_token".to_owned(), refresh_token.to_owned()),
        ];
        proof {
            assert(string_pairs_view(form@) =~= seq![
                ("client_key"@, client_key@),
                ("grant_type"@, "refresh_token"@),
                ("refresh_token"@, refresh_token@),
            ]);
        }
        form_spec("/oauth/refresh_token/", form)
    }

    /// The request that renews a refresh token.
    pub fn renew_refresh_token(&self, client_key: &str, refresh_token: &str) -> (r: RequestSpec)
        ensures
            r.view() == form_request(
                "/oauth/renew_refresh_token/"@,
                seq![("client_key"@, client_key@), ("refresh_token"@, refresh_token@)],
            ),
    {
        let form = vec![
            ("client_key".to_owned(), client_key.to_owned()),
            ("refresh_token".to_owned(), refresh_token.to_owned()),
        ];
        proof {
            assert(string_pairs_view(form@) =~= seq![
                ("client_key"@, client_key@),
                ("refresh_token"@, refresh_token@),
            ]);
        }
        form_spec("/oauth/renew_refresh_token/", form)
    }
}

/// The plain value of a client outcome.
pub open spec fn client_outcome(r: Result<OpenApiClient, String>) -> Result<(Seq<char>, UrlView), Seq<char>> {
    match r {
        Ok(c) => Ok((c.root(), c.origin())),
        Err(e) => Err(e@),
    }
}

/// The view of an optional string slice.
pub open spec fn opt_text(s: Option<&str>) -> Option<Seq<char>> {
    match s {
        Some(t) => Some(t@),
        None => None,
    }
}

fn same_opt_text(a: &Option<String>, b: &Option<String>) -> (r: bool)
    ensures
        r == (crate::target::opt_str_view(*a) == crate::target::opt_str_view(*b)),
{
    match (a, b) {
        (Some(x), Some(y)) => crate::json::str_eq(x.as_str(), y.as_str()),
        (None, None) => true,
        _ => false,
    }
}

fn same_port(a: Option<u16>, b: Option<u16>) -> (r: bool)
    ensures
        r == (a == b),
{
    match (a, b) {
        (Some(x), Some(y)) => x == y,
        (None, None) => true,
        _ => false,
    }
}

/// `parts.join(sep)`; see [`join`].
pub fn join_texts(parts: &Vec<String>, sep: &str) -> (r: String)
    ensures
        r@ == join(texts(parts@), sep@),
{
    let ghost pv = texts(parts@);
    let sc = chars_of(sep);
    let mut out: Vec<char> = Vec::new();
    let mut i: usize = 0;
    assert(pv.take(0) =~= Seq::<Seq<char>>::empty());
    while i < parts.len()
        invariant
            i <= parts.len(),
            pv == texts(parts@),
            sc@ == sep@,
            out@ == join(pv.take(i as int), sep@),
        decreases parts.len() - i,
    {
        assert(pv.take(i + 1).drop_last() =~= pv.take(i as int));
        assert(pv.take(i + 1).last() == parts@[i as int]@);
        if i > 0 {
            append_chars(&mut out, sc.as_slice());
        }
        append_chars(&mut out, chars_of(parts[i].as_str()).as_slice());
        proof {
            if i == 0 {
                assert(out@ =~= pv.take(1)[0]);
            }
        }
        i = i + 1;
    }
    assert(pv.take(parts.len() as int) =~= pv);
    string_of(out.as_slice())
}

/// The excerpt of a reply body shown in errors; see [`excerpt`].
pub fn body_excerpt(body: &str) -> (r: String)
    ensures
        r@ == excerpt(body@),
{
    let c = chars_of(body);
    if c.len() <= 2000 {
        return body.to_owned();
    }
    let mut out = crate::text::slice_chars(c.as_slice(), 0, 2000);
    append_chars(&mut out, chars_of("…（响应已截断）").as_slice());
    string_of(out.as_slice())
}

/// What a reply gives; see [`reply_value`].
pub fn read_reply(status_ok: bool, status: &str, body: &str) -> (r: Result<Json, String>)
    ensures
        json_outcome(r) == reply_value(status_ok, status@, body@),
{
    if !status_ok {
        let head = join_str("OpenAPI HTTP 请求失败: ", status);
        let head = join_str(head.as_str(), " ");
        let ex = body_excerpt(body);
        return Err(join_str(head.as_str(), ex.as_str()));
    }
    match crate::json::parse_json(body) {
        Err(_) => {
            let ex = body_excerpt(body);
            Err(join_str("OpenAPI 响应不是 JSON: ", ex.as_str()))
        },
        Ok(v) => match v {
            Json::Obj(_) => Ok(v),
            _ => Err("OpenAPI 响应不是 JSON object".to_owned()),
        },
    }
}

/// The body of a private message; see [`im_body`].
pub fn im_message_body(
    to_user_id: &str,
    message_type: &str,
    content: &Json,
    persona_id: Option<&str>,
    client_msg_id: Option<&str>,
) -> (r: Json)
    ensures
        r.jv() == im_body(to_user_id@, message_type@, content.jv(), opt_text(persona_id), opt_text(client_msg_id)),
{
    let mut es: Vec<(String, Json)> = Vec::new();
    assert(entries_view(es@) =~= Seq::<(Seq<char>, JsonV)>::empty());
    insert_str(&mut es, "to_user_id", Json::Str(to_user_id.to_owned()));
    insert_str(&mut es, "message_type", Json::Str(message_type.to_owned()));
    insert_str(&mut es, "content", Json::Str(crate::json::to_json_string(content)));
    match persona_id {
        Some(p) => insert_str(&mut es, "persona_id", Json::Str(p.to_owned())),
        None => {},
    }
    match client_msg_id {
        Some(c) => insert_str(&mut es, "client_msg_id", Json::Str(c.to_owned())),
        None => {},
    }
    proof {
        crate::json::lemma_obj_view(es);
    }
    Json::Obj(es)
}

} // verus!
