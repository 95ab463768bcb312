//! The `auth` command: what the OAuth login, the code exchange, the refresh,
//! the status check and the saved cookie come to, given the saved settings.
use vstd::prelude::*;
use crate::api::saved_view;
use crate::crawler::str_items;
use crate::download::texts;
use crate::json::{
    entries_view, insert_str, items_view, lemma_arr_view, lemma_obj_view, lookup, set_entry, Json, JsonV,
};
use crate::openapi::{RequestSpec, RequestView};
use crate::settings::{saved_string, saved_text};
use crate::target::opt_str_view;
use crate::text::{append_chars, chars_of, decimal, decimal_string, join_str, string_of, trim};

verus! {

broadcast use vstd::string::group_string_axioms;

/// The subcommands of `auth`.
pub enum AuthCommand {
    Login {
        client_key: Option<String>,
        client_secret: Option<String>,
        redirect_uri: Option<String>,
        scope: Vec<String>,
        code: Option<String>,
        qr: bool,
        no_qr: bool,
        listen: bool,
        callback_host: String,
        callback_port: u16,
        timeout: u64,
    },
    Code { code: String, client_secret: Option<String> },
    Refresh,
    Status { json: bool },
    Logout,
    CookieLogin { cookie: String },
    CookieStatus { offline: bool },
    CookieLogout,
}

/// The arguments of `auth`.
pub struct AuthArgs {
    pub command: AuthCommand,
}

/// The options of an OAuth login.
pub struct LoginOptions {
    pub client_key: Option<String>,
    pub client_secret: Option<String>,
    pub redirect_uri: Option<String>,
    pub scopes: Vec<String>,
    pub code: Option<String>,
    pub show_qr: bool,
    pub listen: bool,
    pub callback_host: String,
    pub callback_port: u16,
    pub timeout: u64,
}

/// The message when no client key is known: the OAuth flow needs one, and
/// a saved browser cookie is the way without it.
pub open spec fn missing_key_text(show_qr: bool) -> Seq<char> {
    "当前命令是官方 OpenAPI OAuth 授权，需要开放平台 client_key。\n"@ + (if show_qr {
        "--qr 只会把官方 OAuth 授权链接渲染成二维码，仍然需要 client_key。\n"@
    } else {
        Seq::empty()
    }) + "这不是网页端 Cookie 扫码登录，不能直接生成可保存 Cookie 的登录二维码。\n\n可选方案：\n  1. 官方 OpenAPI：传入 --client-key，或设置 DOUYIN_CLIENT_KEY。\n  2. 网页端采集：从浏览器复制 Cookie 后运行：\n     douyin auth cookie-login --cookie 'sessionid=...; ttwid=...'"@
}

/// The message when no client key is known; see [`missing_key_text`].
pub fn missing_client_key(show_qr: bool) -> (r: String)
    ensures
        r@ == missing_key_text(show_qr),
{
    let head = "当前命令是官方 OpenAPI OAuth 授权，需要开放平台 client_key。\n";
    let qr_line = if show_qr {
        "--qr 只会把官方 OAuth 授权链接渲染成二维码，仍然需要 client_key。\n"
    } else {
        proof {
            reveal_strlit("");
        }
        ""
    };
    let tail = "这不是网页端 Cookie 扫码登录，不能直接生成可保存 Cookie 的登录二维码。\n\n可选方案：\n  1. 官方 OpenAPI：传入 --client-key，或设置 DOUYIN_CLIENT_KEY。\n  2. 网页端采集：从浏览器复制 Cookie 后运行：\n     douyin auth cookie-login --cookie 'sessionid=...; ttwid=...'";
    let a = join_str(head, qr_line);
    join_str(a.as_str(), tail)
}

/// The token fields of an OAuth reply (under `data` when that is an object),
/// under the names the settings keep them by.
pub open spec fn token_fields(data: JsonV) -> Seq<(Seq<char>, JsonV)> {
    let source = match data.get("data"@) {
        Some(JsonV::Obj(es)) => JsonV::Obj(es),
        _ => data,
    };
    let e0 = Seq::<(Seq<char>, JsonV)>::empty();
    let e1 = match source.get("access_token"@) {
        Some(v) => set_entry(e0, "accessToken"@, v),
        None => e0,
    };
    let e2 = match source.get("refresh_token"@) {
        Some(v) => set_entry(e1, "refreshToken"@, v),
        None => e1,
    };
    let e3 = match source.get("open_id"@) {
        Some(v) => set_entry(e2, "openId"@, v),
        None => e2,
    };
    match source.get("expires_in"@) {
        Some(v) => set_entry(e3, "expiresIn"@, v),
        None => e3,
    }
}

fn copy_field(es: &mut Vec<(String, Json)>, source: &Json, from: &str, to: &str)
    ensures
        entries_view(final(es)@) == match source.jv().get(from@) {
            Some(v) => set_entry(entries_view(old(es)@), to@, v),
            None => entries_view(old(es)@),
        },
{
    match source.get(from) {
        Some(v) => insert_str(es, to, v.duplicate()),
        None => {},
    }
}

/// The token fields of an OAuth reply; see [`token_fields`].
pub fn extract_token_fields(data: &Json) -> (r: Vec<(String, Json)>)
    ensures
        entries_view(r@) == token_fields(data.jv()),
{
    let source: &Json = match data.get("data") {
        Some(d) => match d {
            Json::Obj(_) => d,
            _ => data,
        },
        None => data,
    };
    let mut es: Vec<(String, Json)> = Vec::new();
    assert(entries_view(es@) =~= Seq::<(Seq<char>, JsonV)>::empty());
    copy_field(&mut es, source, "access_token", "accessToken");
    copy_field(&mut es, source, "refresh_token", "refreshToken");
    copy_field(&mut es, source, "open_id", "openId");
    copy_field(&mut es, source, "expires_in", "expiresIn");
    es
}

/// What a login uses, after the given options and the saved settings.
pub struct LoginPlan {
    pub client_key: String,
    pub client_secret: Option<String>,
    pub redirect_uri: String,
    pub scopes: Vec<String>,
    /// Whether a fresh `state` guards the callback (listening, no code given).
    pub needs_state: bool,
}

/// The plain value of a [`LoginPlan`].
pub struct LoginView {
    pub client_key: Seq<char>,
    pub client_secret: Option<Seq<char>>,
    pub redirect_uri: Seq<char>,
    pub scopes: Seq<Seq<char>>,
    pub needs_state: bool,
}

impl LoginPlan {
    /// The plain value of the plan.
    pub open spec fn lv(&self) -> LoginView {
        LoginView {
            client_key: self.client_key@,
            client_secret: opt_str_view(self.client_secret),
            redirect_uri: self.redirect_uri@,
            scopes: texts(self.scopes@),
            needs_state: self.needs_state,
        }
    }
}

/// The strings among some items, in order.
pub open spec fn string_items(items: Seq<JsonV>) -> Seq<Seq<char>>
    decreases items.len(),
{
    if items.len() == 0 {
        Seq::empty()
    } else {
        match items.last() {
            JsonV::Str(s) => string_items(items.drop_last()).push(s),
            _ => string_items(items.drop_last()),
        }
    }
}

/// The saved scopes, when there are any; else `user_info`.
pub open spec fn saved_scopes(saved: Seq<(Seq<char>, JsonV)>) -> Seq<Seq<char>> {
    match lookup(saved, "scopes"@) {
        Some(JsonV::Arr(items)) => if string_items(items).len() > 0 {
            string_items(items)
        } else {
            seq!["user_info"@]
        },
        _ => seq!["user_info"@],
    }
}

/// The callback address of a listening login.
pub open spec fn callback_uri(host: Seq<char>, port: u16) -> Seq<char> {
    "http://"@ + host + ":"@ + decimal(port as nat) + "/callback"@
}

/// What a login uses: the given values, else the saved ones; a listening
/// login gets its own callback address.
pub open spec fn login_plan(
    options: LoginOptions,
    saved: Result<Seq<(Seq<char>, JsonV)>, Seq<char>>,
) -> Result<LoginView, Seq<char>> {
    match saved {
        Err(e) => Err(e),
        Ok(s) => {
            let key = match options.client_key {
                Some(k) => Some(k@),
                None => saved_text(s, "clientKey"@),
            };
            let secret = match options.client_secret {
                Some(k) => Some(k@),
                None => saved_text(s, "clientSecret"@),
            };
            let redirect = if options.listen {
                Some(callback_uri(options.callback_host@, options.callback_port))
            } else {
                match options.redirect_uri {
                    Some(r) => Some(r@),
                    None => saved_text(s, "redirectUri"@),
                }
            };
            let scopes = if options.scopes@.len() > 0 {
                texts(options.scopes@)
            } else {
                saved_scopes(s)
            };
            match key {
                None => Err(missing_key_text(options.show_qr)),
                Some(k) => match redirect {
                    None => Err("缺少 redirect_uri，请传入 --redirect-uri"@),
                    Some(r) => Ok(
                        LoginView {
                            client_key: k,
                            client_secret: secret,
                            redirect_uri: r,
                            scopes,
                            needs_state: options.listen && options.code is None,
                        },
                    ),
                },
            }
        },
    }
}

/// The plain value of a login planning outcome.
pub open spec fn plan_outcome(r: Result<LoginPlan, String>) -> Result<LoginView, Seq<char>> {
    match r {
        Ok(p) => Ok(p.lv()),
        Err(e) => Err(e@),
    }
}

fn saved_scope_list(s: &Vec<(String, Json)>) -> (r: Vec<String>)
    ensures
        texts(r@) == saved_scopes(entries_view(s@)),
{
    let k = chars_of("scopes");
    let mut out: Vec<String> = Vec::new();
    match crate::json::lookup_entry(s, k.as_slice()) {
        Some(Json::Arr(items)) => {
            proof {
                lemma_arr_view(*items);
            }
            let ghost iv = items_view(items@);
            let mut i: usize = 0;
            assert(iv.take(0) =~= Seq::<JsonV>::empty());
            while i < items.len()
                invariant
                    i <= items.len(),
                    iv == items_view(items@),
                    texts(out@) == string_items(iv.take(i as int)),
                decreases items.len() - i,
            {
                assert(iv.take(i + 1).drop_last() =~= iv.take(i as int));
                assert(iv.take(i + 1).last() == items@[i as int].jv());
                match &items[i] {
                    Json::Str(t) => {
                        let ghost before = texts(out@);
                        out.push(t.clone());
                        assert(texts(out@) =~= before.push(t@));
                    },
                    _ => {},
                }
                i = i + 1;
            }
            assert(iv.take(items.len() as int) =~= iv);
        },
        _ => {},
    }
    if out.len() == 0 {
        let d = vec!["user_info".to_owned()];
        assert(texts(d@) =~= seq!["user_info"@]);
        return d;
    }
    out
}

fn copy_strings(v: &Vec<String>) -> (r: Vec<String>)
    ensures
        r@ == v@,
{
    let mut r: Vec<String> = Vec::new();
    let mut i: usize = 0;
    while i < v.len()
        invariant
            i <= v.len(),
            r@ == v@.take(i as int),
        decreases v.len() - i,
    {
        r.push(v[i].clone());
        assert(r@ =~= v@.take(i + 1));
        i = i + 1;
    }
    assert(v@.take(v.len() as int) =~= v@);
    r
}

/// What a login uses; see [`login_plan`].
pub fn plan_login(options: &LoginOptions, saved: &Result<Vec<(String, Json)>, String>) -> (r: Result<
    LoginPlan,
    String,
>)
    ensures
        plan_outcome(r) == login_plan(*options, saved_view(*saved)),
{
    let s = match saved {
        Err(e) => return Err(e.clone()),
        Ok(s) => s,
    };
    let key = match &options.client_key {
        Some(k) => Some(k.clone()),
        None => saved_string(s, "clientKey"),
    };
    let secret = match &options.client_secret {
        Some(k) => Some(k.clone()),
        None => saved_string(s, "clientSecret"),
    };
    let redirect = if options.listen {
        let mut c = chars_of("http://");
        append_chars(&mut c, chars_of(options.callback_host.as_str()).as_slice());
        c.push(':');
        append_chars(&mut c, chars_of(decimal_string(options.callback_port as u64).as_str()).as_slice());
        append_chars(&mut c, chars_of("/callback").as_slice());
        proof {
            reveal_strlit(":");
            assert(c@ =~= callback_uri(options.callback_host@, options.callback_port));
        }
        Some(string_of(c.as_slice()))
    } else {
        match &options.redirect_uri {
            Some(r) => Some(r.clone()),
            None => saved_string(s, "redirectUri"),
        }
    };
    let scopes = if options.scopes.len() > 0 {
        copy_strings(&options.scopes)
    } else {
        saved_scope_list(s)
    };
    let client_key = match key {
        None => return Err(missing_client_key(options.show_qr)),
        Some(k) => k,
    };
    let redirect_uri = match redirect {
        None => return Err("缺少 redirect_uri，请传入 --redirect-uri".to_owned()),
        Some(r) => r,
    };
    Ok(
        LoginPlan {
            client_key,
            client_secret: secret,
            redirect_uri,
            scopes,
            needs_state: options.listen && options.code.is_none(),
        },
    )
}

impl LoginPlan {
    /// The client secret a code exchange needs.
    pub fn secret_for_code(&self) -> (r: Result<String, String>)
        ensures
            r matches Ok(s) ==> self.client_secret matches Some(t) && s@ == t@,
            r matches Err(e) ==> self.client_secret is None && e@ == "使用 code 换 token 需要 --client-secret"@,
    {
        match &self.client_secret {
            Some(s) => Ok(s.clone()),
            None => Err("使用 code 换 token 需要 --client-secret".to_owned()),
        }
    }
}

/// The settings a login saves, with the token fields of the code exchange
/// laid over them when there was one.
pub open spec fn login_updates_of(plan: LoginView, tokens: Option<Seq<(Seq<char>, JsonV)>>) -> Seq<
    (Seq<char>, JsonV),
> {
    let e = set_entry(
        set_entry(
            set_entry(
                set_entry(Seq::empty(), "clientKey"@, JsonV::Str(plan.client_key)),
                "clientSecret"@,
                JsonV::Str(
                    match plan.client_secret {
                        Some(s) => s,
                        None => Seq::empty(),
                    },
                ),
            ),
            "redirectUri"@,
            JsonV::Str(plan.redirect_uri),
        ),
        "scopes"@,
        JsonV::Arr(str_items(plan.scopes)),
    );
    match tokens {
        Some(t) => extend(e, t),
        None => e,
    }
}

/// The entries of `base` with those of `more` laid over them in order.
pub open spec fn extend(base: Seq<(Seq<char>, JsonV)>, more: Seq<(Seq<char>, JsonV)>) -> Seq<(Seq<char>, JsonV)>
    decreases more.len(),
{
    if more.len() == 0 {
        base
    } else {
        set_entry(extend(base, more.drop_last()), more.last().0, more.last().1)
    }
}

/// Lays `more` over `es`; see [`extend`].
pub fn extend_entries(es: &mut Vec<(String, Json)>, more: &Vec<(String, Json)>)
    ensures
        entries_view(final(es)@) == extend(entries_view(old(es)@), entries_view(more@)),
{
    let ghost mv = entries_view(more@);
    let ghost start = entries_view(es@);
    let mut i: usize = 0;
    assert(mv.take(0) =~= Seq::<(Seq<char>, JsonV)>::empty());
    while i < more.len()
        invariant
            i <= more.len(),
            mv == entries_view(more@),
            entries_view(es@) == extend(start, mv.take(i as int)),
        decreases more.len() - i,
    {
        assert(mv.take(i + 1).drop_last() =~= mv.take(i as int));
        assert(mv.take(i + 1).last() == mv[i as int]);
        let key = chars_of(more[i].0.as_str());
        crate::json::insert_entry(es, key.as_slice(), more[i].1.duplicate());
        i = i + 1;
    }
    assert(mv.take(more.len() as int) =~= mv);
}

/// The settings a login saves; see [`login_updates_of`].
pub fn login_updates(plan: &LoginPlan, tokens: Option<&Vec<(String, Json)>>) -> (r: Vec<(String, Json)>)
    ensures
        entries_view(r@) == login_updates_of(
            plan.lv(),
            match tokens {
                Some(t) => Some(entries_view(t@)),
                None => None,
            },
        ),
{
    let mut items: Vec<Json> = Vec::new();
    let mut i: usize = 0;
    while i < plan.scopes.len()
        invariant
            i <= plan.scopes.len(),
            items_view(items@) == str_items(texts(plan.scopes@).take(i as int)),
        decreases plan.scopes.len() - i,
    {
        let ghost before = items_view(items@);
        items.push(Json::Str(plan.scopes[i].clone()));
        assert(items_view(items@) =~= before.push(JsonV::Str(plan.scopes@[i as int]@)));
        assert(str_items(texts(plan.scopes@).take(i + 1)) =~= str_items(texts(plan.scopes@).take(i as int)).push(
            JsonV::Str(plan.scopes@[i as int]@),
        ));
        i = i + 1;
    }
    assert(texts(plan.scopes@).take(plan.scopes.len() as int) =~= texts(plan.scopes@));
    proof {
        lemma_arr_view(items);
    }
    let secret = match &plan.client_secret {
        Some(s) => s.clone(),
        None => String::new(),
    };
    let mut es: Vec<(String, Json)> = Vec::new();
    assert(entries_view(es@) =~= Seq::<(Seq<char>, JsonV)>::empty());
    insert_str(&mut es, "clientKey", Json::Str(plan.client_key.clone()));
    insert_str(&mut es, "clientSecret", Json::Str(secret));
    insert_str(&mut es, "redirectUri", Json::Str(plan.redirect_uri.clone()));
    insert_str(&mut es, "scopes", Json::Arr(items));
    match tokens {
        Some(t) => extend_entries(&mut es, t),
        None => {},
    }
    es
}

/// The saved client key and secret a code exchange uses: the secret given,
/// else the saved one.
pub open spec fn code_credentials(
    saved: Result<Seq<(Seq<char>, JsonV)>, Seq<char>>,
    secret: Option<Seq<char>>,
) -> Result<(Seq<char>, Seq<char>), Seq<char>> {
    match saved {
        Err(e) => Err(e),
        Ok(s) => match saved_text(s, "clientKey"@) {
            None => Err("缺少 client_key，请先运行 douyin auth login"@),
            Some(k) => match (match secret {
                Some(t) => Some(t),
                None => saved_text(s, "clientSecret"@),
            }) {
                None => Err("缺少 client_secret，请传入 --client-secret"@),
                Some(t) => Ok((k, t)),
            },
        },
    }
}

/// The client key and secret a code exchange uses; see [`code_credentials`].
pub fn exchange_credentials(saved: &Result<Vec<(String, Json)>, String>, client_secret: Option<String>) -> (r: Result<
    (String, String),
    String,
>)
    ensures
        crate::api::pair_outcome(r) == code_credentials(saved_view(*saved), opt_str_view(client_secret)),
{
    let s = match saved {
        Err(e) => return Err(e.clone()),
        Ok(s) => s,
    };
    let key = match saved_string(s, "clientKey") {
        None => return Err("缺少 client_key，请先运行 douyin auth login".to_owned()),
        Some(k) => k,
    };
    let secret = match client_secret {
        Some(t) => Some(t),
        None => saved_string(s, "clientSecret"),
    };
    match secret {
        None => Err("缺少 client_secret，请传入 --client-secret".to_owned()),
        Some(t) => Ok((key, t)),
    }
}

/// The settings a code exchange saves: the token fields and the secret used.
pub open spec fn code_updates_of(reply: JsonV, secret: Seq<char>) -> Seq<(Seq<char>, JsonV)> {
    set_entry(token_fields(reply), "clientSecret"@, JsonV::Str(secret))
}

/// The settings a code exchange saves; see [`code_updates_of`].
pub fn code_updates(reply: &Json, secret: &str) -> (r: Vec<(String, Json)>)
    ensures
        entries_view(r@) == code_updates_of(reply.jv(), secret@),
{
    let mut es = extract_token_fields(reply);
    insert_str(&mut es, "clientSecret", Json::Str(secret.to_owned()));
    es
}

/// The saved client key and refresh token a refresh uses.
pub open spec fn refresh_credentials_of(saved: Result<Seq<(Seq<char>, JsonV)>, Seq<char>>) -> Result<
    (Seq<char>, Seq<char>),
    Seq<char>,
> {
    match saved {
        Err(e) => Err(e),
        Ok(s) => match (saved_text(s, "clientKey"@), saved_text(s, "refreshToken"@)) {
            (Some(k), Some(t)) => Ok((k, t)),
            _ => Err("缺少 client_key 或 refresh_token，请重新授权"@),
        },
    }
}

/// The saved client key and refresh token a refresh uses; see
/// [`refresh_credentials_of`].
pub fn refresh_credentials(saved: &Result<Vec<(String, Json)>, String>) -> (r: Result<(String, String), String>)
    ensures
        crate::api::pair_outcome(r) == refresh_credentials_of(saved_view(*saved)),
{
    let s = match saved {
        Err(e) => return Err(e.clone()),
        Ok(s) => s,
    };
    match (saved_string(s, "clientKey"), saved_string(s, "refreshToken")) {
        (Some(k), Some(t)) => Ok((k, t)),
        _ => Err("缺少 client_key 或 refresh_token，请重新授权".to_owned()),
    }
}

/// The settings a logout saves: the tokens cleared.
pub open spec fn logout_updates_of() -> Seq<(Seq<char>, JsonV)> {
    set_entry(
        set_entry(
            set_entry(set_entry(Seq::empty(), "accessToken"@, JsonV::Str(Seq::empty())), "refreshToken"@, JsonV::Str(Seq::empty())),
            "openId"@,
            JsonV::Str(Seq::empty()),
        ),
        "expiresIn"@,
        JsonV::UInt(0),
    )
}

/// The settings a logout saves; see [`logout_updates_of`].
pub fn logout_updates() -> (r: Vec<(String, Json)>)
    ensures
        entries_view(r@) == logout_updates_of(),
{
    let mut es: Vec<(String, Json)> = Vec::new();
    assert(entries_view(es@) =~= Seq::<(Seq<char>, JsonV)>::empty());
    insert_str(&mut es, "accessToken", Json::Str(String::new()));
    insert_str(&mut es, "refreshToken", Json::Str(String::new()));
    insert_str(&mut es, "openId", Json::Str(String::new()));
    insert_str(&mut es, "expiresIn", Json::UInt(0));
    es
}

/// The settings with `updates` laid over their `openapi` section, which must
/// be an object.
pub open spec fn with_openapi(data: JsonV, updates: Seq<(Seq<char>, JsonV)>) -> Result<JsonV, Seq<char>> {
    match data {
        JsonV::Obj(es) => match lookup(es, "openapi"@) {
            Some(JsonV::Obj(section)) => Ok(JsonV::Obj(set_entry(es, "openapi"@, JsonV::Obj(extend(section, updates))))),
            _ => Err("openapi 配置格式无效"@),
        },
        _ => Err("openapi 配置格式无效"@),
    }
}

/// The settings with updates laid over their `openapi` section; see
/// [`with_openapi`].
pub fn apply_openapi(data: &Json, updates: &Vec<(String, Json)>) -> (r: Result<Json, String>)
    ensures
        crate::openapi::json_outcome(r) == with_openapi(data.jv(), entries_view(updates@)),
{
    match data {
        Json::Obj(es) => {
            proof {
                lemma_obj_view(*es);
            }
            let k = chars_of("openapi");
            match crate::json::lookup_entry(es, k.as_slice()) {
                Some(Json::Obj(section)) => {
                    proof {
                        lemma_obj_view(*section);
                    }
                    let mut merged = crate::json::copy_entries(section);
                    extend_entries(&mut merged, updates);
                    proof {
                        lemma_obj_view(merged);
                    }
                    let mut out = crate::json::copy_entries(es);
                    insert_str(&mut out, "openapi", Json::Obj(merged));
                    proof {
                        lemma_obj_view(out);
                    }
                    Ok(Json::Obj(out))
                },
                _ => Err("openapi 配置格式无效".to_owned()),
            }
        },
        _ => Err("openapi 配置格式无效".to_owned()),
    }
}


/// What `auth status` reports before the platform is asked: whether a token
/// and an open ID are saved, and where the settings live.
pub open spec fn status_report_of(saved: Seq<(Seq<char>, JsonV)>, config_file: Seq<char>) -> JsonV {
    let authorized = saved_text(saved, "accessToken"@) is Some && saved_text(saved, "openId"@) is Some;
    let open_id = match saved_text(saved, "openId"@) {
        Some(o) => o,
        None => Seq::empty(),
    };
    let scopes = match lookup(saved, "scopes"@) {
        Some(v) => v,
        None => JsonV::Arr(Seq::empty()),
    };
    JsonV::Obj(
        set_entry(
            set_entry(
                set_entry(
                    set_entry(set_entry(Seq::empty(), "authorized"@, JsonV::Bool(authorized)), "connected"@, JsonV::Bool(false)),
                    "configFile"@,
                    JsonV::Str(config_file),
                ),
                "openId"@,
                JsonV::Str(open_id),
            ),
            "scopes"@,
            scopes,
        ),
    )
}

/// What `auth status` reports before the platform is asked; see
/// [`status_report_of`].
pub fn status_report(saved: &Vec<(String, Json)>, config_file: &str) -> (r: Json)
    ensures
        r.jv() == status_report_of(entries_view(saved@), config_file@),
{
    let token = saved_string(saved, "accessToken");
    let open_id = saved_string(saved, "openId");
    let authorized = token.is_some() && open_id.is_some();
    let open_id_text = match open_id {
        Some(o) => o,
        None => String::new(),
    };
    let k = chars_of("scopes");
    let scopes = match crate::json::lookup_entry(saved, k.as_slice()) {
        Some(v) => v.duplicate(),
        None => {
            let empty: Vec<Json> = Vec::new();
            proof {
                lemma_arr_view(empty);
                assert(items_view(empty@) =~= Seq::<JsonV>::empty());
            }
            Json::Arr(empty)
        },
    };
    let mut es: Vec<(String, Json)> = Vec::new();
    assert(entries_view(es@) =~= Seq::<(Seq<char>, JsonV)>::empty());
    insert_str(&mut es, "authorized", Json::Bool(authorized));
    insert_str(&mut es, "connected", Json::Bool(false));
    insert_str(&mut es, "configFile", Json::Str(config_file.to_owned()));
    insert_str(&mut es, "openId", Json::Str(open_id_text));
    insert_str(&mut es, "scopes", scopes);
    proof {
        lemma_obj_view(es);
    }
    Json::Obj(es)
}

/// The user-info request that checks a saved authorization, when a token and
/// an open ID are saved.
pub open spec fn status_request_of(saved: Seq<(Seq<char>, JsonV)>) -> Option<RequestView> {
    match (saved_text(saved, "accessToken"@), saved_text(saved, "openId"@)) {
        (Some(t), Some(o)) => Some(crate::api::authed("GET"@, "/oauth/userinfo/"@, t, seq![("open_id"@, o)], None)),
        _ => None,
    }
}

/// The user-info request that checks a saved authorization; see
/// [`status_request_of`].
pub fn status_request(saved: &Vec<(String, Json)>) -> (r: Option<RequestSpec>)
    ensures
        match r {
            Some(q) => status_request_of(entries_view(saved@)) == Some(q.view()),
            None => status_request_of(entries_view(saved@)) is None,
        },
{
    match (saved_string(saved, "accessToken"), saved_string(saved, "openId")) {
        (Some(t), Some(o)) => Some(
            crate::api::authed_spec("GET", "/oauth/userinfo/", t, crate::api::open_id_params(o), None),
        ),
        _ => None,
    }
}

/// The status report once the platform answered: connected with the user
/// info, or the error.
pub open spec fn status_checked_of(report: JsonV, reply: Result<JsonV, Seq<char>>) -> JsonV {
    match report {
        JsonV::Obj(es) => JsonV::Obj(
            match reply {
                Ok(u) => set_entry(set_entry(es, "connected"@, JsonV::Bool(true)), "userinfo"@, u),
                Err(e) => set_entry(es, "error"@, JsonV::Str(e)),
            },
        ),
        _ => report,
    }
}

/// The status report once the platform answered; see [`status_checked_of`].
pub fn status_checked(report: &Json, reply: &Result<Json, String>) -> (r: Json)
    ensures
        r.jv() == status_checked_of(report.jv(), crate::openapi::json_outcome(*reply)),
{
    match report {
        Json::Obj(es) => {
            proof {
                lemma_obj_view(*es);
            }
            let mut out = crate::json::copy_entries(es);
            match reply {
                Ok(u) => {
                    insert_str(&mut out, "connected", Json::Bool(true));
                    insert_str(&mut out, "userinfo", u.duplicate());
                },
                Err(e) => insert_str(&mut out, "error", Json::Str(e.clone())),
            }
            proof {
                lemma_obj_view(out);
            }
            Json::Obj(out)
        },
        _ => report.duplicate(),
    }
}

/// A cookie to save: trimmed, and only when it passes the format check.
pub open spec fn cookie_to_save(value: Seq<char>) -> Result<Seq<char>, Seq<char>> {
    if crate::cookie::cookie_valid(trim(value)) {
        Ok(trim(value))
    } else {
        Err("Cookie 格式校验失败，未保存"@)
    }
}

/// A cookie to save; see [`cookie_to_save`].
pub fn cookie_login_value(value: &str) -> (r: Result<String, String>)
    ensures
        crate::openapi::text_outcome(r) == cookie_to_save(value@),
{
    let t = string_of(crate::text::trim_chars(chars_of(value).as_slice()).as_slice());
    if crate::cookie::validate(t.as_str()) {
        Ok(t)
    } else {
        Err("Cookie 格式校验失败，未保存".to_owned())
    }
}

/// The settings with `cookie` set (a null document becomes an object).
pub open spec fn with_cookie_of(data: JsonV, cookie: Seq<char>) -> JsonV {
    match data {
        JsonV::Obj(es) => JsonV::Obj(set_entry(es, "cookie"@, JsonV::Str(cookie))),
        _ => JsonV::Obj(set_entry(Seq::empty(), "cookie"@, JsonV::Str(cookie))),
    }
}

/// The settings with `cookie` set; see [`with_cookie_of`]. Only an object or
/// null can take a member.
pub fn with_cookie(data: &Json, cookie: &str) -> (r: Json)
    requires
        data.jv() is Obj || data.jv() is Null,
    ensures
        r.jv() == with_cookie_of(data.jv(), cookie@),
{
    let mut es = match data {
        Json::Obj(es) => {
            proof {
                lemma_obj_view(*es);
            }
            crate::json::copy_entries(es)
        },
        _ => {
            let none: Vec<(String, Json)> = Vec::new();
            assert(entries_view(none@) =~= Seq::<(Seq<char>, JsonV)>::empty());
            none
        },
    };
    insert_str(&mut es, "cookie", Json::Str(cookie.to_owned()));
    proof {
        lemma_obj_view(es);
    }
    Json::Obj(es)
}

/// What the saved cookie is: missing, malformed, or a cookie to check.
pub enum CookieState {
    Missing,
    Invalid,
    Valid(String),
}

/// The saved cookie, trimmed; empty when there is none.
pub open spec fn saved_cookie(data: JsonV) -> Seq<char> {
    match data.get("cookie"@) {
        Some(JsonV::Str(s)) => trim(s),
        _ => Seq::empty(),
    }
}

/// The state of the saved cookie.
pub open spec fn cookie_state_of(data: JsonV) -> Option<Option<Seq<char>>> {
    let c = saved_cookie(data);
    if c.len() == 0 {
        None
    } else if !crate::cookie::cookie_valid(c) {
        Some(None)
    } else {
        Some(Some(c))
    }
}

/// The state of the saved cookie: `None` when missing, `Some(None)` when
/// malformed, `Some(Some(cookie))` when it can be checked.
pub fn cookie_state(data: &Json) -> (r: CookieState)
    ensures
        match r {
            CookieState::Missing => cookie_state_of(data.jv()) is None,
            CookieState::Invalid => cookie_state_of(data.jv()) == Some(None::<Seq<char>>),
            CookieState::Valid(c) => cookie_state_of(data.jv()) == Some(Some(c@)),
        },
{
    let c = match data.get("cookie") {
        Some(Json::Str(s)) => string_of(crate::text::trim_chars(chars_of(s.as_str()).as_slice()).as_slice()),
        _ => String::new(),
    };
    if c.as_str().is_empty() {
        assert(saved_cookie(data.jv()).len() == 0);
        CookieState::Missing
    } else if !crate::cookie::validate(c.as_str()) {
        CookieState::Invalid
    } else {
        CookieState::Valid(c)
    }
}

/// The text before the first line break, without a trailing carriage
/// return; none for an empty text (`str::lines().next()`).
pub open spec fn first_line(s: Seq<char>) -> Option<Seq<char>> {
    if s.len() == 0 {
        None
    } else {
        let line = match crate::text::find(s, seq!['\n']) {
            Some(i) => s.take(i),
            None => s,
        };
        Some(
            if line.len() > 0 && line.last() == '\r' {
                line.drop_last()
            } else {
                line
            },
        )
    }
}

/// The number of leading characters that are not whitespace.
pub open spec fn word_len(s: Seq<char>) -> nat
    decreases s.len(),
{
    if s.len() == 0 || crate::text::is_ws(s[0]) {
        0
    } else {
        1 + word_len(s.drop_first())
    }
}

/// The `n`-th whitespace-separated word (`split_whitespace().nth(n)`).
pub open spec fn nth_word(s: Seq<char>, n: nat) -> Option<Seq<char>>
    decreases s.len(), n,
{
    let t = crate::text::trim_start(s);
    if t.len() == 0 {
        None
    } else {
        proof {
            lemma_trim_start_len(s);
        }
        let w = word_len(t);
        if n == 0 {
            Some(t.take(w as int))
        } else {
            proof {
                lemma_word_len(t);
            }
            nth_word(t.skip(w as int), (n - 1) as nat)
        }
    }
}

pub proof fn lemma_trim_start_len(s: Seq<char>)
    ensures
        crate::text::trim_start(s).len() <= s.len(),
    decreases s.len(),
{
    if s.len() > 0 && crate::text::is_ws(s[0]) {
        lemma_trim_start_len(s.drop_first());
    }
}

pub proof fn lemma_word_len(s: Seq<char>)
    ensures
        word_len(s) <= s.len(),
        s.len() > 0 && !crate::text::is_ws(s[0]) ==> word_len(s) > 0,
    decreases s.len(),
{
    if s.len() > 0 && !crate::text::is_ws(s[0]) {
        lemma_word_len(s.drop_first());
    }
}

/// The value of the last pair with `key` (what a map built from the pairs
/// keeps).
pub open spec fn last_value(pairs: Seq<(Seq<char>, Seq<char>)>, key: Seq<char>) -> Option<Seq<char>>
    decreases pairs.len(),
{
    if pairs.len() == 0 {
        None
    } else if pairs.last().0 == key {
        Some(pairs.last().1)
    } else {
        last_value(pairs.drop_last(), key)
    }
}

/// What an OAuth callback request comes to: the page to answer with (its
/// status and text), if any, and the code or the error.
pub struct CallbackView {
    pub page: Option<(u16, Seq<char>)>,
    pub result: Result<Seq<char>, Seq<char>>,
}

/// What an OAuth callback request comes to, checked in order: a request
/// line with a target, a URL, the `/callback` path, no error reported, the
/// expected `state`, a `code`.
pub open spec fn callback_of(request: Seq<char>, expected_state: Option<Seq<char>>) -> CallbackView {
    let target = match first_line(request) {
        Some(l) => nth_word(l, 1),
        None => None,
    };
    match target {
        None => CallbackView { page: None, result: Err("授权回调请求无效"@) },
        Some(t) => match crate::target::parsed_url("http://localhost"@ + t) {
            Err(m) => CallbackView { page: None, result: Err("授权回调 URL 无效: "@ + m) },
            Ok(v) => if v.path != "/callback"@ {
                CallbackView { page: Some((404, "未找到回调路径"@)), result: Err("授权回调路径无效"@) }
            } else {
                let reported = match last_value(v.query, "error"@) {
                    Some(e) => Some(e),
                    None => last_value(v.query, "error_description"@),
                };
                match reported {
                    Some(e) => CallbackView {
                        page: Some((400, "授权失败，可以关闭此页面并返回终端。"@)),
                        result: Err("授权失败: "@ + e),
                    },
                    None => if expected_state is Some && last_value(v.query, "state"@) != expected_state {
                        CallbackView { page: Some((400, "state 不匹配。"@)), result: Err("授权回调 state 不匹配，已拒绝"@) }
                    } else {
                        match last_value(v.query, "code"@) {
                            None => CallbackView { page: Some((400, "回调缺少 code。"@)), result: Err("授权回调缺少 code"@) },
                            Some(c) => CallbackView {
                                page: Some((200, "授权完成，可以关闭此页面并返回终端。"@)),
                                result: Ok(c),
                            },
                        }
                    },
                }
            },
        },
    }
}

/// What an OAuth callback request comes to.
pub struct Callback {
    /// The page to answer with: its status and text.
    pub page: Option<(u16, String)>,
    /// The code, or why there is none.
    pub result: Result<String, String>,
}

impl Callback {
    /// The plain value of the outcome.
    pub open spec fn cv(&self) -> CallbackView {
        CallbackView {
            page: match self.page {
                Some((s, t)) => Some((s, t@)),
                None => None,
            },
            result: crate::openapi::text_outcome(self.result),
        }
    }
}

fn page(status: u16, text: &str, result: Result<String, String>) -> (r: Callback)
    ensures
        r.cv() == (CallbackView { page: Some((status, text@)), result: crate::openapi::text_outcome(result) }),
{
    Callback { page: Some((status, text.to_owned())), result }
}

fn first_line_exec(s: &[char]) -> (r: Option<Vec<char>>)
    ensures
        match r {
            Some(l) => first_line(s@) == Some(l@),
            None => first_line(s@) is None,
        },
{
    if s.len() == 0 {
        return None;
    }
    let nl = vec!['\n'];
    assert(nl@ =~= seq!['\n']);
    let mut line = match crate::text::find_chars(s, nl.as_slice()) {
        Some(i) => {
            proof {
                crate::text::lemma_find_facts(s@, seq!['\n']);
            }
            crate::text::slice_chars(s, 0, i)
        },
        None => crate::text::slice_chars(s, 0, s.len()),
    };
    if line.len() > 0 && line[line.len() - 1] == '\r' {
        let ghost before = line@;
        line.pop();
        assert(line@ =~= before.drop_last());
    }
    Some(line)
}

fn nth_word_exec(s: &[char], n: usize) -> (r: Option<Vec<char>>)
    ensures
        match r {
            Some(w) => nth_word(s@, n as nat) == Some(w@),
            None => nth_word(s@, n as nat) is None,
        },
{
    let mut i: usize = 0;
    let mut k: usize = 0;
    assert(s@.skip(0) =~= s@);
    loop
        invariant
            i <= s.len(),
            k <= n,
            nth_word(s@, n as nat) == nth_word(s@.skip(i as int), (n - k) as nat),
        decreases s.len() - i,
    {
        let start = i;
        while i < s.len() && crate::text::is_whitespace(s[i])
            invariant
                start <= i <= s.len(),
                crate::text::trim_start(s@.skip(start as int)) == crate::text::trim_start(s@.skip(i as int)),
            decreases s.len() - i,
        {
            assert(s@.skip(i as int).drop_first() =~= s@.skip(i + 1));
            i = i + 1;
        }
        assert(i == s.len() || !crate::text::is_ws(s@[i as int]));
        assert(crate::text::trim_start(s@.skip(i as int)) == s@.skip(i as int)) by {
            if i < s.len() {
                assert(s@.skip(i as int)[0] == s@[i as int]);
            }
        }
        if i == s.len() {
            assert(s@.skip(i as int).len() == 0);
            return None;
        }
        let w0 = i;
        while i < s.len() && !crate::text::is_whitespace(s[i])
            invariant
                w0 <= i <= s.len(),
                word_len(s@.skip(w0 as int)) == (i - w0) + word_len(s@.skip(i as int)),
            decreases s.len() - i,
        {
            assert(s@.skip(i as int).drop_first() =~= s@.skip(i + 1));
            assert(s@.skip(i as int)[0] == s@[i as int]);
            i = i + 1;
        }
        assert(word_len(s@.skip(i as int)) == 0) by {
            if i < s.len() {
                assert(s@.skip(i as int)[0] == s@[i as int]);
            }
        }
        assert(s@.skip(w0 as int).take((i - w0) as int) =~= s@.subrange(w0 as int, i as int));
        assert(s@.skip(w0 as int).skip((i - w0) as int) =~= s@.skip(i as int));
        if k == n {
            return Some(crate::text::slice_chars(s, w0, i));
        }
        k = k + 1;
    }
}

fn last_value_exec(pairs: &Vec<(String, String)>, key: &str) -> (r: Option<String>)
    ensures
        opt_str_view(r) == last_value(crate::cookie::string_pairs_view(pairs@), key@),
{
    let ghost pv = crate::cookie::string_pairs_view(pairs@);
    let k = chars_of(key);
    let mut i: usize = pairs.len();
    assert(pv.take(pairs.len() as int) =~= pv);
    while i > 0
        invariant
            i <= pairs.len(),
            pv == crate::cookie::string_pairs_view(pairs@),
            k@ == key@,
            last_value(pv, key@) == last_value(pv.take(i as int), key@),
        decreases i,
    {
        assert(pv.take(i as int).drop_last() =~= pv.take(i - 1));
        assert(pv.take(i as int).last() == pv[i - 1]);
        if crate::json::same_chars(chars_of(pairs[i - 1].0.as_str()).as_slice(), k.as_slice()) {
            return Some(pairs[i - 1].1.clone());
        }
        i = i - 1;
    }
    None
}

/// What an OAuth callback request comes to; see [`callback_of`].
pub fn handle_callback(request: &str, expected_state: Option<&str>) -> (r: Callback)
    ensures
        r.cv() == callback_of(request@, crate::openapi::opt_text(expected_state)),
{
    let rc = chars_of(request);
    let target = match first_line_exec(rc.as_slice()) {
        Some(l) => nth_word_exec(l.as_slice(), 1),
        None => None,
    };
    let t = match target {
        None => return Callback { page: None, result: Err("授权回调请求无效".to_owned()) },
        Some(t) => string_of(t.as_slice()),
    };
    let url = join_str("http://localhost", t.as_str());
    let v = match crate::target::parse_url(url.as_str()) {
        Err(m) => return Callback { page: None, result: Err(join_str("授权回调 URL 无效: ", m.as_str())) },
        Ok(v) => v,
    };
    if !crate::json::str_eq(v.path.as_str(), "/callback") {
        return page(404, "未找到回调路径", Err("授权回调路径无效".to_owned()));
    }
    let reported = match last_value_exec(&v.query, "error") {
        Some(e) => Some(e),
        None => last_value_exec(&v.query, "error_description"),
    };
    match reported {
        Some(e) => {
            return page(400, "授权失败，可以关闭此页面并返回终端。", Err(join_str("授权失败: ", e.as_str())));
        },
        None => {},
    }
    let state = last_value_exec(&v.query, "state");
    let mismatch = match expected_state {
        Some(x) => match &state {
            Some(s) => !crate::json::str_eq(s.as_str(), x),
            None => true,
        },
        None => false,
    };
    if mismatch {
        return page(400, "state 不匹配。", Err("授权回调 state 不匹配，已拒绝".to_owned()));
    }
    match last_value_exec(&v.query, "code") {
        None => page(400, "回调缺少 code。", Err("授权回调缺少 code".to_owned())),
        Some(c) => page(200, "授权完成，可以关闭此页面并返回终端。", Ok(c)),
    }
}

/// The number of bytes of a text in UTF-8.
pub open spec fn utf8_size(s: Seq<char>) -> nat
    decreases s.len(),
{
    if s.len() == 0 {
        0
    } else {
        utf8_size(s.drop_last()) + crate::crawler::utf8_len(s.last())
    }
}

/// The HTML page that answers the browser.
pub open spec fn html_page(body: Seq<char>) -> Seq<char> {
    "<!doctype html><meta charset='utf-8'><title>Douyin CLI</title><p>"@ + body + "</p>"@
}

/// The HTTP response that answers the browser: the status, `OK` for 200 and
/// `Bad Request` otherwise, and the page with its length in bytes.
pub open spec fn http_response(status: u16, body: Seq<char>) -> Seq<char> {
    let content = html_page(body);
    let reason = if status == 200 {
        "OK"@
    } else {
        "Bad Request"@
    };
    "HTTP/1.1 "@ + decimal(status as nat) + " "@ + reason
        + "\r\nContent-Type: text/html; charset=utf-8\r\nContent-Length: "@ + decimal(utf8_size(content))
        + "\r\nConnection: close\r\n\r\n"@ + content
}

/// The HTTP response that answers the browser; see [`http_response`]. The
/// bound on the body keeps its byte count within `u64`.
pub fn html_response(status: u16, body: &str) -> (r: String)
    requires
        body@.len() < 0x3fff_ffff_ffff_ff00,
    ensures
        r@ == http_response(status, body@),
{
    let mut content = chars_of("<!doctype html><meta charset='utf-8'><title>Douyin CLI</title><p>");
    append_chars(&mut content, chars_of(body).as_slice());
    append_chars(&mut content, chars_of("</p>").as_slice());
    proof {
        reveal_strlit("<!doctype html><meta charset='utf-8'><title>Douyin CLI</title><p>");
        reveal_strlit("</p>");
    }
    assert(content@ =~= html_page(body@));
    let mut size: u64 = 0;
    let mut i: usize = 0;
    while i < content.len()
        invariant
            i <= content.len(),
            content@.len() < 0x3fff_ffff_ffff_ff00 + 100,
            size == utf8_size(content@.take(i as int)),
            size <= 4 * i,
        decreases content.len() - i,
    {
        assert(content@.take(i + 1).drop_last() =~= content@.take(i as int));
        assert(content@.take(i + 1).last() == content@[i as int]);
        size = size + crate::crawler::utf8_len_exec(content[i]) as u64;
        i = i + 1;
    }
    assert(content@.take(content.len() as int) =~= content@);
    let mut out = chars_of("HTTP/1.1 ");
    append_chars(&mut out, crate::text::decimal_chars(status as u64).as_slice());
    out.push(' ');
    let reason = if status == 200 {
        "OK"
    } else {
        "Bad Request"
    };
    append_chars(&mut out, chars_of(reason).as_slice());
    append_chars(&mut out, chars_of("\r\nContent-Type: text/html; charset=utf-8\r\nContent-Length: ").as_slice());
    append_chars(&mut out, crate::text::decimal_chars(size).as_slice());
    append_chars(&mut out, chars_of("\r\nConnection: close\r\n\r\n").as_slice());
    append_chars(&mut out, content.as_slice());
    proof {
        reveal_strlit(" ");
    }
    assert(out@ =~= http_response(status, body@));
    string_of(out.as_slice())
}

/// The modules of the QR code of `value` (the side's width, then the dark
/// flags row by row), or the text of the error.
pub uninterp spec fn qr_matrix(value: Seq<char>) -> Result<(usize, Seq<bool>), Seq<char>>;

/// `qrcode::QrCode::new(value.as_bytes())`, then `width()` and `to_colors()`
/// with each module taken as whether it is dark. The code is the named
/// [`qr_matrix`]; that it holds one module per cell of the square (the
/// crate's canvas is `width * width` modules) is all that is stated of it.
#[verifier::external_body]
fn qr_code(value: &str) -> (r: Result<(usize, Vec<bool>), String>)
    ensures
        r matches Ok(m) ==> (qr_matrix(value@) matches Ok(q) && q.0 == m.0 && q.1 == m.1@) && m.1@.len() == m.0 * m.0,
        r matches Err(e) ==> (qr_matrix(value@) matches Err(q) && q == e@),
{
    match qrcode::QrCode::new(value.as_bytes()) {
        Ok(code) => Ok((code.width(), code.to_colors().into_iter().map(|c| c == qrcode::Color::Dark).collect())),
        Err(error) => Err(error.to_string()),
    }
}

/// The half-block character of two stacked modules.
pub open spec fn block(top: bool, bottom: bool) -> char {
    match (top, bottom) {
        (true, true) => '█',
        (true, false) => '▀',
        (false, true) => '▄',
        (false, false) => ' ',
    }
}

/// Whether the module at column `x` of row `y` is dark (rows past the end
/// are light).
pub open spec fn dark_at(width: nat, dark: Seq<bool>, x: nat, y: nat) -> bool {
    y < width && dark[(y * width + x) as int]
}

/// The text line of rows `y` and `y + 1`.
pub open spec fn qr_row(width: nat, dark: Seq<bool>, y: nat) -> Seq<char> {
    Seq::new(width, |x: int| block(dark_at(width, dark, x as nat, y), dark_at(width, dark, x as nat, y + 1)))
}

/// The text lines of a QR code, two rows of modules per line.
pub open spec fn qr_text(width: nat, dark: Seq<bool>) -> Seq<Seq<char>> {
    Seq::new((width + 1) / 2, |i: int| qr_row(width, dark, (2 * i) as nat))
}

fn module(width: usize, dark: &Vec<bool>, x: usize, y: usize) -> (r: bool)
    requires
        dark@.len() == width * width,
        x < width,
    ensures
        r == dark_at(width as nat, dark@, x as nat, y as nat),
{
    if y < width {
        assert(y * width + x < width * width) by (nonlinear_arith)
            requires
                x < width,
                y < width,
        ;
        let n = dark.len();
        assert(y * width + x < n);
        assert(y * width <= y * width + x);
        let row = y * width;
        dark[row + x]
    } else {
        false
    }
}

/// The text lines of a QR code; see [`qr_text`].
pub fn qr_lines(width: usize, dark: &Vec<bool>) -> (r: Vec<String>)
    requires
        dark@.len() == width * width,
    ensures
        texts(r@) == qr_text(width as nat, dark@),
{
    let mut lines: Vec<String> = Vec::new();
    let mut y: usize = 0;
    let n = dark.len();
    assert(width < usize::MAX) by (nonlinear_arith)
        requires
            width * width == n,
            n <= usize::MAX,
    ;
    while y < width
        invariant
            dark@.len() == width * width,
            width < usize::MAX,
            y % 2 == 0,
            y <= width + 1,
            texts(lines@) == qr_text(width as nat, dark@).take((y / 2) as int),
        decreases width + 1 - y,
    {
        let mut line: Vec<char> = Vec::new();
        let mut x: usize = 0;
        while x < width
            invariant
                dark@.len() == width * width,
                y < width,
                x <= width,
                line@ == qr_row(width as nat, dark@, y as nat).take(x as int),
            decreases width - x,
        {
            let top = module(width, dark, x, y);
            let bottom = module(width, dark, x, y + 1);
            let c = match (top, bottom) {
                (true, true) => '█',
                (true, false) => '▀',
                (false, true) => '▄',
                (false, false) => ' ',
            };
            line.push(c);
            assert(line@ =~= qr_row(width as nat, dark@, y as nat).take(x + 1));
            x = x + 1;
        }
        assert(line@ =~= qr_row(width as nat, dark@, y as nat));
        let ghost before = texts(lines@);
        lines.push(string_of(line.as_slice()));
        assert(texts(lines@) =~= before.push(qr_row(width as nat, dark@, y as nat)));
        assert(qr_text(width as nat, dark@).take((y / 2 + 1) as int) =~= qr_text(width as nat, dark@).take(
            (y / 2) as int,
        ).push(qr_row(width as nat, dark@, y as nat)));
        y = y + 2;
    }
    assert(qr_text(width as nat, dark@).take((y / 2) as int) =~= qr_text(width as nat, dark@));
    lines
}

/// The text lines of the QR code of `value`, or the error of the encoder.
pub open spec fn qr_render(value: Seq<char>) -> Result<Seq<Seq<char>>, Seq<char>> {
    match qr_matrix(value) {
        Ok((w, d)) => Ok(qr_text(w as nat, d)),
        Err(e) => Err(e),
    }
}

/// The plain value of rendered lines.
pub open spec fn lines_outcome(r: Result<Vec<String>, String>) -> Result<Seq<Seq<char>>, Seq<char>> {
    match r {
        Ok(v) => Ok(texts(v@)),
        Err(e) => Err(e@),
    }
}

/// The text lines of the QR code of `value`; see [`qr_render`].
pub fn render_qr(value: &str) -> (r: Result<Vec<String>, String>)
    ensures
        lines_outcome(r) == qr_render(value@),
{
    match qr_code(value) {
        Ok((width, dark)) => Ok(qr_lines(width, &dark)),
        Err(e) => Err(e),
    }
}

/// A digit of the URL-safe base64 alphabet: `A`–`Z`, `a`–`z`, `0`–`9`, `-`, `_`.
pub open spec fn base64_digit(v: int) -> char {
    if v < 26 {
        (0x41 + v) as char
    } else if v < 52 {
        (0x61 + v - 26) as char
    } else if v < 62 {
        (0x30 + v - 52) as char
    } else if v == 62 {
        '-'
    } else {
        '_'
    }
}

/// The URL-safe base64 text, without padding, of some bytes: each group of
/// three bytes as four digits of six bits, a last group of one or two bytes
/// as two or three digits.
pub open spec fn base64_url(bytes: Seq<u8>) -> Seq<char>
    decreases bytes.len(),
{
    if bytes.len() == 0 {
        Seq::empty()
    } else if bytes.len() == 1 {
        seq![base64_digit((bytes[0] as int) / 4), base64_digit(((bytes[0] as int) % 4) * 16)]
    } else if bytes.len() == 2 {
        seq![
            base64_digit((bytes[0] as int) / 4),
            base64_digit(((bytes[0] as int) % 4) * 16 + (bytes[1] as int) / 16),
            base64_digit(((bytes[1] as int) % 16) * 4),
        ]
    } else {
        seq![
            base64_digit((bytes[0] as int) / 4),
            base64_digit(((bytes[0] as int) % 4) * 16 + (bytes[1] as int) / 16),
            base64_digit(((bytes[1] as int) % 16) * 4 + (bytes[2] as int) / 64),
            base64_digit((bytes[2] as int) % 64),
        ] + base64_url(bytes.skip(3))
    }
}

/// `ring::rand::SystemRandom::new().fill` on `n` bytes: the bytes, or `None`
/// when the system gave none. Nothing is stated of the bytes but their
/// number: they are random.
#[verifier::external_body]
fn random_bytes(n: usize) -> (r: Option<Vec<u8>>)
    ensures
        r matches Some(b) ==> b@.len() == n,
{
    let mut bytes = vec![0u8; n];
    match ring::rand::SecureRandom::fill(&ring::rand::SystemRandom::new(), &mut bytes) {
        Ok(()) => Some(bytes),
        Err(_) => None,
    }
}

/// `base64::engine::general_purpose::URL_SAFE_NO_PAD.encode(bytes)`, which is
/// [`base64_url`] of the bytes.
#[verifier::external_body]
fn encode_url_safe(bytes: &[u8]) -> (r: String)
    ensures
        r@ == base64_url(bytes@),
{
    base64::Engine::encode(&base64::engine::general_purpose::URL_SAFE_NO_PAD, bytes)
}

/// The base64 text of a whole number of three-byte groups has four digits
/// per group.
pub proof fn lemma_base64_len(bytes: Seq<u8>)
    requires
        bytes.len() % 3 == 0,
    ensures
        base64_url(bytes).len() == bytes.len() / 3 * 4,
    decreases bytes.len(),
{
    if bytes.len() > 0 {
        lemma_base64_len(bytes.skip(3));
    }
}

/// A fresh OAuth `state`: eighteen random bytes in URL-safe base64 (24
/// characters), or the error when the system gave no random bytes.
pub fn random_state() -> (r: Result<String, String>)
    ensures
        r matches Err(e) ==> e@ == "无法生成 OAuth state"@,
        r matches Ok(s) ==> exists|b: Seq<u8>| b.len() == 18 && s@ == base64_url(b),
        r matches Ok(s) ==> s@.len() == 24,
{
    match random_bytes(18) {
        Some(b) => {
            let s = encode_url_safe(b.as_slice());
            assert(b@.len() == 18 && s@ == base64_url(b@));
            proof {
                lemma_base64_len(b@);
            }
            Ok(s)
        },
        None => Err("无法生成 OAuth state".to_owned()),
    }
}

} // verus!
