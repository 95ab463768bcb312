//! The `api` command: which official open-platform request each subcommand
//! sends, built from its arguments and the saved authorization.
use vstd::prelude::*;
use crate::cookie::string_pairs_view;
use crate::download::texts;
use crate::json::{entries_view, insert_str, parsed_json, set_entry, Json, JsonV};
use crate::openapi::{
    authorize_params, im_body, im_message_body, opt_pairs, resolved, OpenApiClient, RequestSpec,
    RequestView,
};
use crate::settings::{saved_string, saved_text};
use crate::target::opt_str_view;
use crate::text::{chars_of, decimal, decimal_string, join_str, split_once, split_once_char, string_of};
use crate::web::query_text;

verus! {

broadcast use vstd::string::group_string_axioms;

/// The kinds of private message.
#[derive(Clone, Copy, Debug, PartialEq, Eq, Structural)]
pub enum MessageType {
    Text,
    Image,
    Video,
    Card,
}

impl MessageType {
    /// The name the platform knows the kind by.
    pub open spec fn name(self) -> Seq<char> {
        match self {
            MessageType::Text => "text"@,
            MessageType::Image => "image"@,
            MessageType::Video => "video"@,
            MessageType::Card => "card"@,
        }
    }

    /// The name the platform knows the kind by; see [`MessageType::name`].
    pub fn as_str(&self) -> (r: &'static str)
        ensures
            r@ == self.name(),
    {
        proof {
            reveal_strlit("text");
            reveal_strlit("image");
            reveal_strlit("video");
            reveal_strlit("card");
        }
        match self {
            MessageType::Text => "text",
            MessageType::Image => "image",
            MessageType::Video => "video",
            MessageType::Card => "card",
        }
    }
}

/// A token and an open ID given on the command line; the saved ones stand in
/// for those not given.
pub struct AuthOptions {
    pub token: Option<String>,
    pub open_id: Option<String>,
}

/// The subcommands of `api`.
pub enum ApiCommand {
    ClientToken { client_key: String, client_secret: String },
    AuthorizeUrl { client_key: String, redirect_uri: String, scope: Vec<String>, state: Option<String> },
    AccessToken { client_key: String, client_secret: String, code: String },
    RefreshToken { client_key: String, refresh_token: String },
    RenewRefreshToken { client_key: String, refresh_token: String },
    Userinfo(AuthOptions),
    CommentList { auth: AuthOptions, item_id: String, cursor: u64, count: u32 },
    CommentReplies { auth: AuthOptions, item_id: String, comment_id: String, cursor: u64, count: u32 },
    CommentReply { auth: AuthOptions, item_id: String, comment_id: Option<String>, content: String, yes: bool },
    ImMessageSend {
        auth: AuthOptions,
        to_user_id: String,
        message_type: MessageType,
        text: Option<String>,
        media_id: Option<String>,
        item_id: Option<String>,
        card_id: Option<String>,
        persona_id: Option<String>,
        client_msg_id: Option<String>,
        yes: bool,
    },
    Request {
        method: String,
        path: String,
        token: Option<String>,
        params: Vec<String>,
        json_text: Option<String>,
        forms: Vec<String>,
        headers: Vec<String>,
    },
}

/// The arguments of `api`.
pub struct ApiArgs {
    pub command: ApiCommand,
}

/// What an `api` subcommand does: print a text, or send a request, after
/// asking the question first when there is one.
pub enum ApiAction {
    Print(String),
    Send { confirm: Option<String>, request: RequestSpec },
}

/// The plain value of an [`ApiAction`].
pub enum ActionView {
    Print(Seq<char>),
    Send(Option<Seq<char>>, RequestView),
}

/// The plain value of a planning outcome.
pub open spec fn action_outcome(r: Result<ApiAction, String>) -> Result<ActionView, Seq<char>> {
    match r {
        Ok(ApiAction::Print(s)) => Ok(ActionView::Print(s@)),
        Ok(ApiAction::Send { confirm, request }) => Ok(ActionView::Send(opt_str_view(confirm), request.view())),
        Err(e) => Err(e@),
    }
}

/// The saved open-platform settings, or why they could not be read.
pub open spec fn saved_view(saved: Result<Vec<(String, Json)>, String>) -> Result<Seq<(Seq<char>, JsonV)>, Seq<char>> {
    match saved {
        Ok(v) => Ok(entries_view(v@)),
        Err(e) => Err(e@),
    }
}

/// The token and open ID to call with: the given ones, else the saved ones.
pub open spec fn auth_pair(
    token: Option<Seq<char>>,
    open_id: Option<Seq<char>>,
    saved: Result<Seq<(Seq<char>, JsonV)>, Seq<char>>,
) -> Result<(Seq<char>, Seq<char>), Seq<char>> {
    match saved {
        Err(e) => Err(e),
        Ok(s) => {
            let t = match token {
                Some(t) => Some(t),
                None => saved_text(s, "accessToken"@),
            };
            let o = match open_id {
                Some(o) => Some(o),
                None => saved_text(s, "openId"@),
            };
            match (t, o) {
                (None, _) => Err("缺少 access_token，请先运行 douyin auth login"@),
                (Some(_), None) => Err("缺少 open_id，请先运行 douyin auth login"@),
                (Some(t), Some(o)) => Ok((t, o)),
            }
        },
    }
}

/// The plain value of an authorization outcome.
pub open spec fn pair_outcome(r: Result<(String, String), String>) -> Result<(Seq<char>, Seq<char>), Seq<char>> {
    match r {
        Ok((a, b)) => Ok((a@, b@)),
        Err(e) => Err(e@),
    }
}

/// The token and open ID to call with; see [`auth_pair`].
pub fn resolve_auth(options: &AuthOptions, saved: &Result<Vec<(String, Json)>, String>) -> (r: Result<
    (String, String),
    String,
>)
    ensures
        pair_outcome(r) == auth_pair(opt_str_view(options.token), opt_str_view(options.open_id), saved_view(*saved)),
{
    let s = match saved {
        Ok(s) => s,
        Err(e) => return Err(e.clone()),
    };
    let token = match &options.token {
        Some(t) => Some(t.clone()),
        None => saved_string(s, "accessToken"),
    };
    let open_id = match &options.open_id {
        Some(o) => Some(o.clone()),
        None => saved_string(s, "openId"),
    };
    match (token, open_id) {
        (None, _) => Err("缺少 access_token，请先运行 douyin auth login".to_owned()),
        (Some(_), None) => Err("缺少 open_id，请先运行 douyin auth login".to_owned()),
        (Some(t), Some(o)) => Ok((t, o)),
    }
}

/// The content of a private message: the value its kind needs, which must be
/// given and not empty.
pub open spec fn content_of(
    kind: MessageType,
    text: Option<Seq<char>>,
    media_id: Option<Seq<char>>,
    item_id: Option<Seq<char>>,
    card_id: Option<Seq<char>>,
) -> Result<JsonV, Seq<char>> {
    let (key, value, error) = match kind {
        MessageType::Text => ("text"@, text, "message-type=text 需要 --text"@),
        MessageType::Image => ("media_id"@, media_id, "message-type=image 需要 --media-id"@),
        MessageType::Video => ("item_id"@, item_id, "message-type=video 需要 --item-id"@),
        MessageType::Card => ("card_id"@, card_id, "message-type=card 需要 --card-id"@),
    };
    match value {
        Some(v) => if v.len() > 0 {
            Ok(JsonV::Obj(set_entry(Seq::empty(), key, JsonV::Str(v))))
        } else {
            Err(error)
        },
        None => Err(error),
    }
}

/// The content of a private message; see [`content_of`].
pub fn message_content(
    message_type: &MessageType,
    text: Option<String>,
    media_id: Option<String>,
    item_id: Option<String>,
    card_id: Option<String>,
) -> (r: Result<Json, String>)
    ensures
        crate::openapi::json_outcome(r) == content_of(
            *message_type,
            opt_str_view(text),
            opt_str_view(media_id),
            opt_str_view(item_id),
            opt_str_view(card_id),
        ),
{
    let (key, value, error) = match message_type {
        MessageType::Text => ("text", text, "message-type=text 需要 --text"),
        MessageType::Image => ("media_id", media_id, "message-type=image 需要 --media-id"),
        MessageType::Video => ("item_id", item_id, "message-type=video 需要 --item-id"),
        MessageType::Card => ("card_id", card_id, "message-type=card 需要 --card-id"),
    };
    match value {
        Some(v) => {
            if v.as_str().is_empty() {
                return Err(error.to_owned());
            }
            let mut es: Vec<(String, Json)> = Vec::new();
            assert(entries_view(es@) =~= Seq::<(Seq<char>, JsonV)>::empty());
            insert_str(&mut es, key, Json::Str(v));
            proof {
                crate::json::lemma_obj_view(es);
            }
            Ok(Json::Obj(es))
        },
        None => Err(error.to_owned()),
    }
}

/// `key=value` arguments gathered, in order, a later value of a key replacing
/// the earlier one; the first malformed argument is the error.
pub open spec fn key_values(values: Seq<Seq<char>>) -> Result<Seq<(Seq<char>, Seq<char>)>, Seq<char>>
    decreases values.len(),
{
    if values.len() == 0 {
        Ok(Seq::empty())
    } else {
        match key_values(values.drop_last()) {
            Err(e) => Err(e),
            Ok(acc) => match split_once(values.last(), '=') {
                None => Err("参数必须是 key=value 格式: "@ + values.last()),
                Some((k, v)) => if k.len() == 0 {
                    Err("参数 key 不能为空: ="@ + v)
                } else {
                    Ok(put_pair(acc, k, v))
                },
            },
        }
    }
}

/// The pairs with `key` set to `value`: in place when the key is there,
/// appended otherwise.
pub open spec fn put_pair(pairs: Seq<(Seq<char>, Seq<char>)>, key: Seq<char>, value: Seq<char>) -> Seq<
    (Seq<char>, Seq<char>),
> {
    match first_key(pairs, key) {
        Some(i) => pairs.update(i, (key, value)),
        None => pairs.push((key, value)),
    }
}

/// The position of the first pair with `key`.
pub open spec fn first_key(pairs: Seq<(Seq<char>, Seq<char>)>, key: Seq<char>) -> Option<int>
    decreases pairs.len(),
{
    if pairs.len() == 0 {
        None
    } else {
        match first_key(pairs.drop_last(), key) {
            Some(i) => Some(i),
            None => if pairs.last().0 == key {
                Some(pairs.len() - 1)
            } else {
                None
            },
        }
    }
}

/// The arguments as pairs, none when there are none; see [`key_values`].
pub open spec fn key_value_arg(values: Seq<Seq<char>>) -> Result<Option<Seq<(Seq<char>, Seq<char>)>>, Seq<char>> {
    if values.len() == 0 {
        Ok(None)
    } else {
        match key_values(values) {
            Ok(p) => Ok(Some(p)),
            Err(e) => Err(e),
        }
    }
}

/// The plain value of a parsed pair list.
pub open spec fn pairs_outcome(r: Result<Option<Vec<(String, String)>>, String>) -> Result<
    Option<Seq<(Seq<char>, Seq<char>)>>,
    Seq<char>,
> {
    match r {
        Ok(p) => Ok(opt_pairs(p)),
        Err(e) => Err(e@),
    }
}

pub proof fn lemma_first_key_push(pairs: Seq<(Seq<char>, Seq<char>)>, p: (Seq<char>, Seq<char>), key: Seq<char>)
    ensures
        first_key(pairs.push(p), key) == match first_key(pairs, key) {
            Some(i) => Some(i),
            None => if p.0 == key {
                Some(pairs.len() as int)
            } else {
                None
            },
        },
{
    assert(pairs.push(p).drop_last() =~= pairs);
}

pub proof fn lemma_first_key_bounds(pairs: Seq<(Seq<char>, Seq<char>)>, key: Seq<char>)
    ensures
        first_key(pairs, key) matches Some(i) ==> 0 <= i < pairs.len() && pairs[i].0 == key,
        first_key(pairs, key) is None ==> forall|j: int| 0 <= j < pairs.len() ==> pairs[j].0 != key,
    decreases pairs.len(),
{
    if pairs.len() > 0 {
        let d = pairs.drop_last();
        lemma_first_key_bounds(d, key);
        assert forall|j: int| 0 <= j < pairs.len() - 1 implies pairs[j] == d[j] by {}
    }
}

/// Sets `key` to `value` in the pairs; see [`put_pair`].
fn put_exec(pairs: &mut Vec<(String, String)>, key: String, value: String)
    ensures
        string_pairs_view(final(pairs)@) == put_pair(string_pairs_view(old(pairs)@), key@, value@),
{
    let ghost pv = string_pairs_view(pairs@);
    let kc = chars_of(key.as_str());
    let mut i: usize = 0;
    assert(pv.take(0) =~= Seq::<(Seq<char>, Seq<char>)>::empty());
    while i < pairs.len()
        invariant
            i <= pairs.len(),
            pv == string_pairs_view(pairs@),
            pairs@ == old(pairs)@,
            kc@ == key@,
            first_key(pv.take(i as int), key@) is None,
        decreases pairs.len() - i,
    {
        proof {
            assert(pv.take(i + 1) =~= pv.take(i as int).push(pv[i as int]));
            lemma_first_key_push(pv.take(i as int), pv[i as int], key@);
        }
        if crate::json::same_chars(chars_of(pairs[i].0.as_str()).as_slice(), kc.as_slice()) {
            proof {
                assert(pv[i as int].0 == key@);
                assert(first_key(pv.take(i + 1), key@) == Some(i as int));
                lemma_first_key_prefix(pv, i + 1, key@);
                assert(first_key(pv, key@) == Some(i as int));
            }
            pairs.set(i, (key, value));
            assert(string_pairs_view(pairs@) =~= pv.update(i as int, (key@, value@)));
            return;
        }
        i = i + 1;
    }
    assert(pv.take(pairs.len() as int) =~= pv);
    pairs.push((key, value));
    assert(string_pairs_view(pairs@) =~= pv.push((key@, value@)));
}

proof fn lemma_first_key_prefix(pairs: Seq<(Seq<char>, Seq<char>)>, n: int, key: Seq<char>)
    requires
        0 <= n <= pairs.len(),
        first_key(pairs.take(n), key) is Some,
    ensures
        first_key(pairs, key) == first_key(pairs.take(n), key),
    decreases pairs.len() - n,
{
    if n < pairs.len() {
        assert(pairs.take(n + 1) =~= pairs.take(n).push(pairs[n]));
        lemma_first_key_push(pairs.take(n), pairs[n], key);
        lemma_first_key_prefix(pairs, n + 1, key);
    } else {
        assert(pairs.take(n) =~= pairs);
    }
}

/// `key=value` arguments as pairs; see [`key_value_arg`].
pub fn parse_key_values(values: Vec<String>) -> (r: Result<Option<Vec<(String, String)>>, String>)
    ensures
        pairs_outcome(r) == key_value_arg(texts(values@)),
{
    let ghost vv = texts(values@);
    if values.len() == 0 {
        return Ok(None);
    }
    let mut out: Vec<(String, String)> = Vec::new();
    let mut i: usize = 0;
    assert(vv.take(0) =~= Seq::<Seq<char>>::empty());
    while i < values.len()
        invariant
            i <= values.len(),
            vv == texts(values@),
            values.len() > 0,
            key_values(vv.take(i as int)) matches Ok(acc) && acc == string_pairs_view(out@),
        decreases values.len() - i,
    {
        assert(vv.take(i + 1).drop_last() =~= vv.take(i as int));
        assert(vv.take(i + 1).last() == values@[i as int]@);
        let c = chars_of(values[i].as_str());
        match split_once_char(c.as_slice(), '=') {
            None => {
                assert(key_values(vv) == key_values(vv.take(i + 1))) by {
                    lemma_key_values_err(vv, i + 1);
                }
                return Err(join_str("参数必须是 key=value 格式: ", values[i].as_str()));
            },
            Some((k, v)) => {
                if k.len() == 0 {
                    assert(key_values(vv) == key_values(vv.take(i + 1))) by {
                        lemma_key_values_err(vv, i + 1);
                    }
                    let rest = string_of(v.as_slice());
                    return Err(join_str("参数 key 不能为空: =", rest.as_str()));
                }
                put_exec(&mut out, string_of(k.as_slice()), string_of(v.as_slice()));
            },
        }
        i = i + 1;
    }
    assert(vv.take(values.len() as int) =~= vv);
    Ok(Some(out))
}

proof fn lemma_key_values_err(vv: Seq<Seq<char>>, n: int)
    requires
        0 <= n <= vv.len(),
        key_values(vv.take(n)) is Err,
    ensures
        key_values(vv) == key_values(vv.take(n)),
    decreases vv.len() - n,
{
    if n < vv.len() {
        assert(vv.take(n + 1).drop_last() =~= vv.take(n));
        lemma_key_values_err(vv, n + 1);
    } else {
        assert(vv.take(n) =~= vv);
    }
}

/// The `--json` argument: none, or a JSON object or array.
pub open spec fn json_arg(text: Option<Seq<char>>) -> Result<Option<JsonV>, Seq<char>> {
    match text {
        None => Ok(None),
        Some(t) => match parsed_json(t) {
            Err(m) => Err("--json 不是合法 JSON: "@ + m),
            Ok(v) => if v is Obj || v is Arr {
                Ok(Some(v))
            } else {
                Err("--json 必须是 JSON object 或 array"@)
            },
        },
    }
}

/// The plain value of a parsed `--json` argument.
pub open spec fn json_arg_outcome(r: Result<Option<Json>, String>) -> Result<Option<JsonV>, Seq<char>> {
    match r {
        Ok(v) => Ok(crate::openapi::opt_json(v)),
        Err(e) => Err(e@),
    }
}

/// The `--json` argument; see [`json_arg`].
pub fn parse_json(text: Option<String>) -> (r: Result<Option<Json>, String>)
    ensures
        json_arg_outcome(r) == json_arg(opt_str_view(text)),
{
    let t = match text {
        None => return Ok(None),
        Some(t) => t,
    };
    match crate::json::parse_json(t.as_str()) {
        Err(e) => Err(join_str("--json 不是合法 JSON: ", e.as_str())),
        Ok(v) => match v {
            Json::Obj(_) | Json::Arr(_) => Ok(Some(v)),
            _ => Err("--json 必须是 JSON object 或 array".to_owned()),
        },
    }
}

/// A request of the open platform that needs the token.
pub open spec fn authed(
    method: Seq<char>,
    path: Seq<char>,
    token: Seq<char>,
    params: Seq<(Seq<char>, Seq<char>)>,
    body: Option<JsonV>,
) -> RequestView {
    RequestView {
        method,
        path,
        token: Some(token),
        params: Some(params),
        json_body: body,
        form: None,
        headers: None,
        auth_required: true,
    }
}

/// An answer to the question before a write agrees: trimmed, it is `y` or
/// `yes` in any ASCII case.
pub open spec fn agrees(answer: Seq<char>) -> bool {
    crate::text::eq_ignore_case(crate::text::trim(answer), "y"@) || crate::text::eq_ignore_case(
        crate::text::trim(answer),
        "yes"@,
    )
}

/// Whether an answer to the question before a write agrees; see [`agrees`].
pub fn confirms(answer: &str) -> (r: bool)
    ensures
        r == agrees(answer@),
{
    let t = crate::text::trim_chars(chars_of(answer).as_slice());
    crate::text::eq_ignore_ascii_case(t.as_slice(), chars_of("y").as_slice())
        || crate::text::eq_ignore_ascii_case(t.as_slice(), chars_of("yes").as_slice())
}

/// The question asked before a write, unless `yes` was given.
pub open spec fn confirm_of(yes: bool, prompt: Seq<char>) -> Option<Seq<char>> {
    if yes {
        None
    } else {
        Some(prompt)
    }
}

/// The body of a comment reply.
pub open spec fn reply_body(item_id: Seq<char>, content: Seq<char>, comment_id: Option<Seq<char>>) -> JsonV {
    let e = set_entry(
        set_entry(Seq::empty(), "item_id"@, JsonV::Str(item_id)),
        "content"@,
        JsonV::Str(content),
    );
    JsonV::Obj(
        match comment_id {
            Some(c) => set_entry(e, "comment_id"@, JsonV::Str(c)),
            None => e,
        },
    )
}

/// What an `api` subcommand does, or why it stops before sending anything.
pub open spec fn api_plan(
    cmd: ApiCommand,
    root: Seq<char>,
    origin: crate::target::UrlView,
    saved: Result<Seq<(Seq<char>, JsonV)>, Seq<char>>,
) -> Result<ActionView, Seq<char>> {
    match cmd {
        ApiCommand::ClientToken { client_key, client_secret } => Ok(
            ActionView::Send(
                None,
                crate::openapi::form_request(
                    "/oauth/client_token/"@,
                    seq![
                        ("client_key"@, client_key@),
                        ("client_secret"@, client_secret@),
                        ("grant_type"@, "client_credential"@),
                    ],
                ),
            ),
        ),
        ApiCommand::AuthorizeUrl { client_key, redirect_uri, scope, state } => match resolved(
            root,
            origin,
            "/platform/oauth/connect/"@,
        ) {
            Ok(u) => Ok(
                ActionView::Print(
                    u + "?"@ + query_text(
                        authorize_params(client_key@, redirect_uri@, texts(scope@), opt_str_view(state)),
                    ),
                ),
            ),
            Err(e) => Err(e),
        },
        ApiCommand::AccessToken { client_key, client_secret, code } => Ok(
            ActionView::Send(
                None,
                crate::openapi::form_request(
                    "/oauth/access_token/"@,
                    seq![
                        ("client_key"@, client_key@),
                        ("client_secret"@, client_secret@),
                        ("code"@, code@),
                        ("grant_type"@, "authorization_code"@),
                    ],
                ),
            ),
        ),
        ApiCommand::RefreshToken { client_key, refresh_token } => Ok(
            ActionView::Send(
                None,
                crate::openapi::form_request(
                    "/oauth/refresh_token/"@,
                    seq![
                        ("client_key"@, client_key@),
                        ("grant_type"@, "refresh_token"@),
                        ("refresh_token"@, refresh_token@),
                    ],
                ),
            ),
        ),
        ApiCommand::RenewRefreshToken { client_key, refresh_token } => Ok(
            ActionView::Send(
                None,
                crate::openapi::form_request(
                    "/oauth/renew_refresh_token/"@,
                    seq![("client_key"@, client_key@), ("refresh_token"@, refresh_token@)],
                ),
            ),
        ),
        ApiCommand::Userinfo(auth) => match auth_pair(opt_str_view(auth.token), opt_str_view(auth.open_id), saved) {
            Err(e) => Err(e),
            Ok((t, o)) => Ok(ActionView::Send(None, authed("GET"@, "/oauth/userinfo/"@, t, seq![("open_id"@, o)], None))),
        },
        ApiCommand::CommentList { auth, item_id, cursor, count } => match auth_pair(
            opt_str_view(auth.token),
            opt_str_view(auth.open_id),
            saved,
        ) {
            Err(e) => Err(e),
            Ok((t, o)) => Ok(
                ActionView::Send(
                    None,
                    authed(
                        "GET"@,
                        "/item/comment/list/"@,
                        t,
                        seq![
                            ("open_id"@, o),
                            ("item_id"@, item_id@),
                            ("cursor"@, decimal(cursor as nat)),
                            ("count"@, decimal(count as nat)),
                        ],
                        None,
                    ),
                ),
            ),
        },
        ApiCommand::CommentReplies { auth, item_id, comment_id, cursor, count } => match auth_pair(
            opt_str_view(auth.token),
            opt_str_view(auth.open_id),
            saved,
        ) {
            Err(e) => Err(e),
            Ok((t, o)) => Ok(
                ActionView::Send(
                    None,
                    authed(
                        "GET"@,
                        "/item/comment/reply/list/"@,
                        t,
                        seq![
                            ("open_id"@, o),
                            ("item_id"@, item_id@),
                            ("comment_id"@, comment_id@),
                            ("cursor"@, decimal(cursor as nat)),
                            ("count"@, decimal(count as nat)),
                        ],
                        None,
                    ),
                ),
            ),
        },
        ApiCommand::CommentReply { auth, item_id, comment_id, content, yes } => match auth_pair(
            opt_str_view(auth.token),
            opt_str_view(auth.open_id),
            saved,
        ) {
            Err(e) => Err(e),
            Ok((t, o)) => Ok(
                ActionView::Send(
                    confirm_of(yes, "将通过官方 OpenAPI 发送评论回复，是否继续？"@),
                    authed(
                        "POST"@,
                        "/item/comment/reply/"@,
                        t,
                        seq![("open_id"@, o)],
                        Some(reply_body(item_id@, content@, opt_str_view(comment_id))),
                    ),
                ),
            ),
        },
        ApiCommand::ImMessageSend {
            auth,
            to_user_id,
            message_type,
            text,
            media_id,
            item_id,
            card_id,
            persona_id,
            client_msg_id,
            yes,
        } => match auth_pair(opt_str_view(auth.token), opt_str_view(auth.open_id), saved) {
            Err(e) => Err(e),
            Ok((t, o)) => match content_of(
                message_type,
                opt_str_view(text),
                opt_str_view(media_id),
                opt_str_view(item_id),
                opt_str_view(card_id),
            ) {
                Err(e) => Err(e),
                Ok(c) => Ok(
                    ActionView::Send(
                        confirm_of(yes, "将通过企业号 OpenAPI 发送私信消息，是否继续？"@),
                        authed(
                            "POST"@,
                            "/enterprise/im/message/send/"@,
                            t,
                            seq![("open_id"@, o)],
                            Some(
                                im_body(
                                    to_user_id@,
                                    message_type.name(),
                                    c,
                                    opt_str_view(persona_id),
                                    opt_str_view(client_msg_id),
                                ),
                            ),
                        ),
                    ),
                ),
            },
        },
        ApiCommand::Request { method, path, token, params, json_text, forms, headers } => match saved {
            Err(e) => Err(e),
            Ok(s) => match key_value_arg(texts(params@)) {
                Err(e) => Err(e),
                Ok(p) => match json_arg(opt_str_view(json_text)) {
                    Err(e) => Err(e),
                    Ok(j) => match key_value_arg(texts(forms@)) {
                        Err(e) => Err(e),
                        Ok(f) => match key_value_arg(texts(headers@)) {
                            Err(e) => Err(e),
                            Ok(h) => Ok(
                                ActionView::Send(
                                    None,
                                    RequestView {
                                        method: method@,
                                        path: path@,
                                        token: match token {
                                            Some(t) => Some(t@),
                                            None => saved_text(s, "accessToken"@),
                                        },
                                        params: p,
                                        json_body: j,
                                        form: f,
                                        headers: h,
                                        auth_required: true,
                                    },
                                ),
                            ),
                        },
                    },
                },
            },
        },
    }
}

pub(crate) fn authed_spec(method: &str, path: &str, token: String, params: Vec<(String, String)>, body: Option<Json>) -> (r:
    RequestSpec)
    ensures
        r.view() == authed(method@, path@, token@, string_pairs_view(params@), crate::openapi::opt_json(body)),
{
    let mut r = RequestSpec::new(method, path);
    r.token = Some(token);
    r.params = Some(params);
    r.json_body = body;
    r.auth_required = true;
    r
}

fn confirm_exec(yes: bool, prompt: &str) -> (r: Option<String>)
    ensures
        opt_str_view(r) == confirm_of(yes, prompt@),
{
    if yes {
        None
    } else {
        Some(prompt.to_owned())
    }
}

pub(crate) fn open_id_params(open_id: String) -> (r: Vec<(String, String)>)
    ensures
        string_pairs_view(r@) == seq![("open_id"@, open_id@)],
{
    let r = vec![("open_id".to_owned(), open_id)];
    assert(string_pairs_view(r@) =~= seq![("open_id"@, open_id@)]);
    r
}

pub(crate) fn reply_body_exec(item_id: &String, content: &String, comment_id: &Option<String>) -> (r: Json)
    ensures
        r.jv() == reply_body(item_id@, content@, opt_str_view(*comment_id)),
{
    let mut es: Vec<(String, Json)> = Vec::new();
    assert(entries_view(es@) =~= Seq::<(Seq<char>, JsonV)>::empty());
    insert_str(&mut es, "item_id", Json::Str(item_id.clone()));
    insert_str(&mut es, "content", Json::Str(content.clone()));
    match comment_id {
        Some(c) => insert_str(&mut es, "comment_id", Json::Str(c.clone())),
        None => {},
    }
    proof {
        crate::json::lemma_obj_view(es);
    }
    Json::Obj(es)
}

fn comment_page_params(open_id: String, item_id: &String, comment_id: Option<&String>, cursor: u64, count: u32) -> (r:
    Vec<(String, String)>)
    ensures
        string_pairs_view(r@) == match comment_id {
            Some(c) => seq![
                ("open_id"@, open_id@),
                ("item_id"@, item_id@),
                ("comment_id"@, c@),
                ("cursor"@, decimal(cursor as nat)),
                ("count"@, decimal(count as nat)),
            ],
            None => seq![
                ("open_id"@, open_id@),
                ("item_id"@, item_id@),
                ("cursor"@, decimal(cursor as nat)),
                ("count"@, decimal(count as nat)),
            ],
        },
{
    let mut r: Vec<(String, String)> = Vec::new();
    r.push(("open_id".to_owned(), open_id));
    r.push(("item_id".to_owned(), item_id.clone()));
    match comment_id {
        Some(c) => r.push(("comment_id".to_owned(), c.clone())),
        None => {},
    }
    r.push(("cursor".to_owned(), decimal_string(cursor)));
    r.push(("count".to_owned(), decimal_string(count as u64)));
    proof {
        match comment_id {
            Some(c) => assert(string_pairs_view(r@) =~= seq![
                ("open_id"@, open_id@),
                ("item_id"@, item_id@),
                ("comment_id"@, c@),
                ("cursor"@, decimal(cursor as nat)),
                ("count"@, decimal(count as nat)),
            ]),
            None => assert(string_pairs_view(r@) =~= seq![
                ("open_id"@, open_id@),
                ("item_id"@, item_id@),
                ("cursor"@, decimal(cursor as nat)),
                ("count"@, decimal(count as nat)),
            ]),
        }
    }
    r
}

fn copy_texts(v: &Vec<String>) -> (r: Vec<String>)
    ensures
        r@ == v@,
{
    let mut r: Vec<String> = Vec::new();
    let mut i: usize = 0;
    while i < v.len()
        invariant
            i <= v.len(),
            r@ == v@.take(i as int),
        decreases v.len() - i,
    {
        r.push(v[i].clone());
        assert(r@ =~= v@.take(i + 1));
        i = i + 1;
    }
    assert(v@.take(v.len() as int) =~= v@);
    r
}

impl ApiArgs {
    /// What the subcommand does, given the client and the saved settings (or
    /// why they could not be read); see [`api_plan`].
    #[verifier::spinoff_prover]
    #[verifier::rlimit(30)]
    pub fn plan(&self, client: &OpenApiClient, saved: &Result<Vec<(String, Json)>, String>) -> (r: Result<
        ApiAction,
        String,
    >)
        ensures
            action_outcome(r) == api_plan(self.command, client.root(), client.origin(), saved_view(*saved)),
    {
        match &self.command {
            ApiCommand::ClientToken { client_key, client_secret } => Ok(
                ApiAction::Send { confirm: None, request: client.client_token(client_key.as_str(), client_secret.as_str()) },
            ),
            ApiCommand::AuthorizeUrl { client_key, redirect_uri, scope, state } => {
                let st: Option<&str> = match state {
                    Some(s) => Some(s.as_str()),
                    None => None,
                };
                match client.authorize_url(client_key.as_str(), redirect_uri.as_str(), scope, st) {
                    Ok(u) => Ok(ApiAction::Print(u)),
                    Err(e) => Err(e),
                }
            },
            ApiCommand::AccessToken { client_key, client_secret, code } => Ok(
                ApiAction::Send {
                    confirm: None,
                    request: client.access_token(client_key.as_str(), client_secret.as_str(), code.as_str()),
                },
            ),
            ApiCommand::RefreshToken { client_key, refresh_token } => Ok(
                ApiAction::Send {
                    confirm: None,
                    request: client.refresh_token(client_key.as_str(), refresh_token.as_str()),
                },
            ),
            ApiCommand::RenewRefreshToken { client_key, refresh_token } => Ok(
                ApiAction::Send {
                    confirm: None,
                    request: client.renew_refresh_token(client_key.as_str(), refresh_token.as_str()),
                },
            ),
            ApiCommand::Userinfo(auth) => match resolve_auth(auth, saved) {
                Err(e) => Err(e),
                Ok((t, o)) => Ok(
                    ApiAction::Send {
                        confirm: None,
                        request: authed_spec("GET", "/oauth/userinfo/", t, open_id_params(o), None),
                    },
                ),
            },
            ApiCommand::CommentList { auth, item_id, cursor, count } => match resolve_auth(auth, saved) {
                Err(e) => Err(e),
                Ok((t, o)) => {
                    let params = comment_page_params(o, item_id, None, *cursor, *count);
                    Ok(
                        ApiAction::Send {
                            confirm: None,
                            request: authed_spec("GET", "/item/comment/list/", t, params, None),
                        },
                    )
                },
            },
            ApiCommand::CommentReplies { auth, item_id, comment_id, cursor, count } => match resolve_auth(
                auth,
                saved,
            ) {
                Err(e) => Err(e),
                Ok((t, o)) => {
                    let params = comment_page_params(o, item_id, Some(comment_id), *cursor, *count);
                    Ok(
                        ApiAction::Send {
                            confirm: None,
                            request: authed_spec("GET", "/item/comment/reply/list/", t, params, None),
                        },
                    )
                },
            },
            ApiCommand::CommentReply { auth, item_id, comment_id, content, yes } => match resolve_auth(auth, saved) {
                Err(e) => Err(e),
                Ok((t, o)) => {
                    let body = reply_body_exec(item_id, content, comment_id);
                    Ok(
                        ApiAction::Send {
                            confirm: confirm_exec(*yes, "将通过官方 OpenAPI 发送评论回复，是否继续？"),
                            request: authed_spec("POST", "/item/comment/reply/", t, open_id_params(o), Some(body)),
                        },
                    )
                },
            },
            ApiCommand::ImMessageSend {
                auth,
                to_user_id,
                message_type,
                text,
                media_id,
                item_id,
                card_id,
                persona_id,
                client_msg_id,
                yes,
            } => match resolve_auth(auth, saved) {
                Err(e) => Err(e),
                Ok((t, o)) => {
                    let content = match message_content(
                        message_type,
                        text.clone(),
                        media_id.clone(),
                        item_id.clone(),
                        card_id.clone(),
                    ) {
                        Err(e) => return Err(e),
                        Ok(c) => c,
                    };
                    let persona: Option<&str> = match persona_id {
                        Some(p) => Some(p.as_str()),
                        None => None,
                    };
                    let msg_id: Option<&str> = match client_msg_id {
                        Some(p) => Some(p.as_str()),
                        None => None,
                    };
                    let body = im_message_body(to_user_id.as_str(), message_type.as_str(), &content, persona, msg_id);
                    Ok(
                        ApiAction::Send {
                            confirm: confirm_exec(*yes, "将通过企业号 OpenAPI 发送私信消息，是否继续？"),
                            request: authed_spec("POST", "/enterprise/im/message/send/", t, open_id_params(o), Some(body)),
                        },
                    )
                },
            },
            ApiCommand::Request { method, path, token, params, json_text, forms, headers } => {
                let s = match saved {
                    Ok(s) => s,
                    Err(e) => return Err(e.clone()),
                };
                let token = match token {
                    Some(t) => Some(t.clone()),
                    None => saved_string(s, "accessToken"),
                };
                let p = match parse_key_values(copy_texts(params)) {
                    Err(e) => return Err(e),
                    Ok(p) => p,
                };
                let j = match parse_json(json_text.clone()) {
                    Err(e) => return Err(e),
                    Ok(j) => j,
                };
                let f = match parse_key_values(copy_texts(forms)) {
                    Err(e) => return Err(e),
                    Ok(f) => f,
                };
                let h = match parse_key_values(copy_texts(headers)) {
                    Err(e) => return Err(e),
                    Ok(h) => h,
                };
                let request = RequestSpec {
                    method: method.clone(),
                    path: path.clone(),
                    token,
                    params: p,
                    json_body: j,
                    form: f,
                    headers: h,
                    auth_required: true,
                };
                Ok(ApiAction::Send { confirm: None, request })
            },
        }
    }
}

} // verus!
