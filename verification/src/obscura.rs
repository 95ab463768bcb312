//! The manifest that describes the tool to an agent host.
use vstd::prelude::*;
use crate::json::{entries_view, insert_str, items_view, lemma_arr_view, lemma_obj_view, set_entry, Json, JsonV};

verus! {

/// The manifest of the tool: its entry point, the commands of its OAuth
/// flow and of the official API, and the environment it reads.
pub open spec fn manifest_json(version: Seq<char>, config_file: Seq<char>) -> JsonV {
    JsonV::Obj(
        set_entry(
            set_entry(
                set_entry(
                    set_entry(
                        set_entry(
                            set_entry(
                                set_entry(
                                    set_entry(Seq::empty(), "name"@, JsonV::Str("douyin-cli"@)),
                                    "version"@,
                                    JsonV::Str(version),
                                ),
                                "homepage"@,
                                JsonV::Str("https://github.com/LIghtJUNction/douyin"@),
                            ),
                            "entrypoint"@,
                            JsonV::Str("douyin"@),
                        ),
                        "configFile"@,
                        JsonV::Str(config_file),
                    ),
                    "auth"@,
                    JsonV::Obj(
                        set_entry(
                            set_entry(
                                set_entry(
                                    set_entry(
                                        set_entry(
                                            set_entry(Seq::empty(), "type"@, JsonV::Str("oauth2"@)),
                                            "login"@,
                                            JsonV::Arr(
                                                seq![
                                                    JsonV::Str("douyin"@),
                                                    JsonV::Str("auth"@),
                                                    JsonV::Str("login"@),
                                                ],
                                            ),
                                        ),
                                        "exchangeCode"@,
                                        JsonV::Arr(
                                            seq![
                                                JsonV::Str("douyin"@),
                                                JsonV::Str("auth"@),
                                                JsonV::Str("code"@),
                                                JsonV::Str("--code"@),
                                                JsonV::Str("<code>"@),
                                            ],
                                        ),
                                    ),
                                    "status"@,
                                    JsonV::Arr(
                                        seq![
                                            JsonV::Str("douyin"@),
                                            JsonV::Str("auth"@),
                                            JsonV::Str("status"@),
                                            JsonV::Str("--json"@),
                                        ],
                                    ),
                                ),
                                "refresh"@,
                                JsonV::Arr(
                                    seq![
                                        JsonV::Str("douyin"@),
                                        JsonV::Str("auth"@),
                                        JsonV::Str("refresh"@),
                                    ],
                                ),
                            ),
                            "logout"@,
                            JsonV::Arr(
                                seq![
                                    JsonV::Str("douyin"@),
                                    JsonV::Str("auth"@),
                                    JsonV::Str("logout"@),
                                ],
                            ),
                        ),
                    ),
                ),
                "openapi"@,
                JsonV::Obj(
                    set_entry(
                        set_entry(
                            set_entry(Seq::empty(), "output"@, JsonV::Str("json"@)),
                            "tokenSource"@,
                            JsonV::Str("saved-oauth-config-or-env"@),
                        ),
                        "commands"@,
                        JsonV::Obj(
                            set_entry(
                                set_entry(
                                    set_entry(
                                        set_entry(
                                            set_entry(
                                                set_entry(
                                                    Seq::empty(),
                                                    "userinfo"@,
                                                    JsonV::Arr(
                                                        seq![
                                                            JsonV::Str("douyin"@),
                                                            JsonV::Str("api"@),
                                                            JsonV::Str("userinfo"@),
                                                        ],
                                                    ),
                                                ),
                                                "commentList"@,
                                                JsonV::Arr(
                                                    seq![
                                                        JsonV::Str("douyin"@),
                                                        JsonV::Str("api"@),
                                                        JsonV::Str("comment-list"@),
                                                        JsonV::Str("--item-id"@),
                                                        JsonV::Str("<item_id>"@),
                                                    ],
                                                ),
                                            ),
                                            "commentReplies"@,
                                            JsonV::Arr(
                                                seq![
                                                    JsonV::Str("douyin"@),
                                                    JsonV::Str("api"@),
                                                    JsonV::Str("comment-replies"@),
                                                    JsonV::Str("--item-id"@),
                                                    JsonV::Str("<item_id>"@),
                                                    JsonV::Str("--comment-id"@),
                                                    JsonV::Str("<comment_id>"@),
                                                ],
                                            ),
                                        ),
                                        "commentReply"@,
                                        JsonV::Arr(
                                            seq![
                                                JsonV::Str("douyin"@),
                                                JsonV::Str("api"@),
                                                JsonV::Str("comment-reply"@),
                                                JsonV::Str("--item-id"@),
                                                JsonV::Str("<item_id>"@),
                                                JsonV::Str("--comment-id"@),
                                                JsonV::Str("<comment_id>"@),
                                                JsonV::Str("--content"@),
                                                JsonV::Str("<content>"@),
                                                JsonV::Str("--yes"@),
                                            ],
                                        ),
                                    ),
                                    "imMessageSend"@,
                                    JsonV::Arr(
                                        seq![
                                            JsonV::Str("douyin"@),
                                            JsonV::Str("api"@),
                                            JsonV::Str("im-message-send"@),
                                            JsonV::Str("--to-user-id"@),
                                            JsonV::Str("<to_user_id>"@),
                                            JsonV::Str("--text"@),
                                            JsonV::Str("<text>"@),
                                            JsonV::Str("--yes"@),
                                        ],
                                    ),
                                ),
                                "request"@,
                                JsonV::Arr(
                                    seq![
                                        JsonV::Str("douyin"@),
                                        JsonV::Str("api"@),
                                        JsonV::Str("request"@),
                                        JsonV::Str("<method>"@),
                                        JsonV::Str("<path>"@),
                                    ],
                                ),
                            ),
                        ),
                    ),
                ),
            ),
            "environment"@,
            JsonV::Obj(
                set_entry(
                    set_entry(
                        set_entry(
                            set_entry(Seq::empty(), "clientKey"@, JsonV::Str("DOUYIN_CLIENT_KEY"@)),
                            "clientSecret"@,
                            JsonV::Str("DOUYIN_CLIENT_SECRET"@),
                        ),
                        "accessToken"@,
                        JsonV::Str("DOUYIN_ACCESS_TOKEN"@),
                    ),
                    "home"@,
                    JsonV::Str("DOUYIN_HOME"@),
                ),
            ),
        ),
    )
}

/// The manifest of the tool; see [`manifest_json`].
#[verifier::rlimit(50)]
pub fn manifest(version: &str, config_file: &str) -> (r: Json)
    ensures
        r.jv() == manifest_json(version@, config_file@),
{
    let mut e1: Vec<(String, Json)> = Vec::new();
    assert(entries_view(e1@) =~= Seq::<(Seq<char>, JsonV)>::empty());
    insert_str(&mut e1, "name", Json::Str("douyin-cli".to_owned()));
    insert_str(&mut e1, "version", Json::Str(version.to_owned()));
    insert_str(&mut e1, "homepage", Json::Str("https://github.com/LIghtJUNction/douyin".to_owned()));
    insert_str(&mut e1, "entrypoint", Json::Str("douyin".to_owned()));
    insert_str(&mut e1, "configFile", Json::Str(config_file.to_owned()));
    let mut e2: Vec<(String, Json)> = Vec::new();
    assert(entries_view(e2@) =~= Seq::<(Seq<char>, JsonV)>::empty());
    insert_str(&mut e2, "type", Json::Str("oauth2".to_owned()));
    let mut a3: Vec<Json> = Vec::new();
    a3.push(Json::Str("douyin".to_owned()));
    a3.push(Json::Str("auth".to_owned()));
    a3.push(Json::Str("login".to_owned()));
    proof {
        lemma_arr_view(a3);
        assert(
            items_view(a3@) =~= seq![JsonV::Str("douyin"@), JsonV::Str("auth"@), JsonV::Str("login"@)]
        );
    }
    let x4 = Json::Arr(a3);
    assert(
        x4.jv() == JsonV::Arr(seq![JsonV::Str("douyin"@), JsonV::Str("auth"@), JsonV::Str("login"@)])
    );
    insert_str(&mut e2, "login", x4);
    let mut a5: Vec<Json> = Vec::new();
    a5.push(Json::Str("douyin".to_owned()));
    a5.push(Json::Str("auth".to_owned()));
    a5.push(Json::Str("code".to_owned()));
    a5.push(Json::Str("--code".to_owned()));
    a5.push(Json::Str("<code>".to_owned()));
    proof {
        lemma_arr_view(a5);
        assert(
            items_view(a5@) =~= seq![JsonV::Str("douyin"@), JsonV::Str("auth"@), JsonV::Str("code"@), JsonV::Str("--code"@), JsonV::Str("<code>"@)]
        );
    }
    let x6 = Json::Arr(a5);
    assert(
        x6.jv() == JsonV::Arr(seq![JsonV::Str("douyin"@), JsonV::Str("auth"@), JsonV::Str("code"@), JsonV::Str("--code"@), JsonV::Str("<code>"@)])
    );
    insert_str(&mut e2, "exchangeCode", x6);
    let mut a7: Vec<Json> = Vec::new();
    a7.push(Json::Str("douyin".to_owned()));
    a7.push(Json::Str("auth".to_owned()));
    a7.push(Json::Str("status".to_owned()));
    a7.push(Json::Str("--json".to_owned()));
    proof {
        lemma_arr_view(a7);
        assert(
            items_view(a7@) =~= seq![JsonV::Str("douyin"@), JsonV::Str("auth"@), JsonV::Str("status"@), JsonV::Str("--json"@)]
        );
    }
    let x8 = Json::Arr(a7);
    assert(
        x8.jv() == JsonV::Arr(seq![JsonV::Str("douyin"@), JsonV::Str("auth"@), JsonV::Str("status"@), JsonV::Str("--json"@)])
    );
    insert_str(&mut e2, "status", x8);
    let mut a9: Vec<Json> = Vec::new();
    a9.push(Json::Str("douyin".to_owned()));
    a9.push(Json::Str("auth".to_owned()));
    a9.push(Json::Str("refresh".to_owned()));
    proof {
        lemma_arr_view(a9);
        assert(
            items_view(a9@) =~= seq![JsonV::Str("douyin"@), JsonV::Str("auth"@), JsonV::Str("refresh"@)]
        );
    }
    let x10 = Json::Arr(a9);
    assert(
        x10.jv() == JsonV::Arr(seq![JsonV::Str("douyin"@), JsonV::Str("auth"@), JsonV::Str("refresh"@)])
    );
    insert_str(&mut e2, "refresh", x10);
    let mut a11: Vec<Json> = Vec::new();
    a11.push(Json::Str("douyin".to_owned()));
    a11.push(Json::Str("auth".to_owned()));
    a11.push(Json::Str("logout".to_owned()));
    proof {
        lemma_arr_view(a11);
        assert(
            items_view(a11@) =~= seq![JsonV::Str("douyin"@), JsonV::Str("auth"@), JsonV::Str("logout"@)]
        );
    }
    let x12 = Json::Arr(a11);
    assert(
        x12.jv() == JsonV::Arr(seq![JsonV::Str("douyin"@), JsonV::Str("auth"@), JsonV::Str("logout"@)])
    );
    insert_str(&mut e2, "logout", x12);
    proof { lemma_obj_view(e2); }
    let x13 = Json::Obj(e2);
    insert_str(&mut e1, "auth", x13);
    let mut e14: Vec<(String, Json)> = Vec::new();
    assert(entries_view(e14@) =~= Seq::<(Seq<char>, JsonV)>::empty());
    insert_str(&mut e14, "output", Json::Str("json".to_owned()));
    insert_str(&mut e14, "tokenSource", Json::Str("saved-oauth-config-or-env".to_owned()));
    let mut e15: Vec<(String, Json)> = Vec::new();
    assert(entries_view(e15@) =~= Seq::<(Seq<char>, JsonV)>::empty());
    let mut a16: Vec<Json> = Vec::new();
    a16.push(Json::Str("douyin".to_owned()));
    a16.push(Json::Str("api".to_owned()));
    a16.push(Json::Str("userinfo".to_owned()));
    proof {
        lemma_arr_view(a16);
        assert(
            items_view(a16@) =~= seq![JsonV::Str("douyin"@), JsonV::Str("api"@), JsonV::Str("userinfo"@)]
        );
    }
    let x17 = Json::Arr(a16);
    assert(
        x17.jv() == JsonV::Arr(seq![JsonV::Str("douyin"@), JsonV::Str("api"@), JsonV::Str("userinfo"@)])
    );
    insert_str(&mut e15, "userinfo", x17);
    let mut a18: Vec<Json> = Vec::new();
    a18.push(Json::Str("douyin".to_owned()));
    a18.push(Json::Str("api".to_owned()));
    a18.push(Json::Str("comment-list".to_owned()));
    a18.push(Json::Str("--item-id".to_owned()));
    a18.push(Json::Str("<item_id>".to_owned()));
    proof {
        lemma_arr_view(a18);
        assert(
            items_view(a18@) =~= seq![JsonV::Str("douyin"@), JsonV::Str("api"@), JsonV::Str("comment-list"@), JsonV::Str("--item-id"@), JsonV::Str("<item_id>"@)]
        );
    }
    let x19 = Json::Arr(a18);
    assert(
        x19.jv() == JsonV::Arr(seq![JsonV::Str("douyin"@), JsonV::Str("api"@), JsonV::Str("comment-list"@), JsonV::Str("--item-id"@), JsonV::Str("<item_id>"@)])
    );
    insert_str(&mut e15, "commentList", x19);
    let mut a20: Vec<Json> = Vec::new();
    a20.push(Json::Str("douyin".to_owned()));
    a20.push(Json::Str("api".to_owned()));
    a20.push(Json::Str("comment-replies".to_owned()));
    a20.push(Json::Str("--item-id".to_owned()));
    a20.push(Json::Str("<item_id>".to_owned()));
    a20.push(Json::Str("--comment-id".to_owned()));
    a20.push(Json::Str("<comment_id>".to_owned()));
    proof {
        lemma_arr_view(a20);
        assert(
            items_view(a20@) =~= seq![JsonV::Str("douyin"@), JsonV::Str("api"@), JsonV::Str("comment-replies"@), JsonV::Str("--item-id"@), JsonV::Str("<item_id>"@), JsonV::Str("--comment-id"@), JsonV::Str("<comment_id>"@)]
        );
    }
    let x21 = Json::Arr(a20);
    assert(
        x21.jv() == JsonV::Arr(seq![JsonV::Str("douyin"@), JsonV::Str("api"@), JsonV::Str("comment-replies"@), JsonV::Str("--item-id"@), JsonV::Str("<item_id>"@), JsonV::Str("--comment-id"@), JsonV::Str("<comment_id>"@)])
    );
    insert_str(&mut e15, "commentReplies", x21);
    let mut a22: Vec<Json> = Vec::new();
    a22.push(Json::Str("douyin".to_owned()));
    a22.push(Json::Str("api".to_owned()));
    a22.push(Json::Str("comment-reply".to_owned()));
    a22.push(Json::Str("--item-id".to_owned()));
    a22.push(Json::Str("<item_id>".to_owned()));
    a22.push(Json::Str("--comment-id".to_owned()));
    a22.push(Json::Str("<comment_id>".to_owned()));
    a22.push(Json::Str("--content".to_owned()));
    a22.push(Json::Str("<content>".to_owned()));
    a22.push(Json::Str("--yes".to_owned()));
    proof {
        lemma_arr_view(a22);
        assert(
            items_view(a22@) =~= seq![JsonV::Str("douyin"@), JsonV::Str("api"@), JsonV::Str("comment-reply"@), JsonV::Str("--item-id"@), JsonV::Str("<item_id>"@), JsonV::Str("--comment-id"@), JsonV::Str("<comment_id>"@), JsonV::Str("--content"@), JsonV::Str("<content>"@), JsonV::Str("--yes"@)]
        );
    }
    let x23 = Json::Arr(a22);
    assert(
        x23.jv() == JsonV::Arr(seq![JsonV::Str("douyin"@), JsonV::Str("api"@), JsonV::Str("comment-reply"@), JsonV::Str("--item-id"@), JsonV::Str("<item_id>"@), JsonV::Str("--comment-id"@), JsonV::Str("<comment_id>"@), JsonV::Str("--content"@), JsonV::Str("<content>"@), JsonV::Str("--yes"@)])
    );
    insert_str(&mut e15, "commentReply", x23);
    let mut a24: Vec<Json> = Vec::new();
    a24.push(Json::Str("douyin".to_owned()));
    a24.push(Json::Str("api".to_owned()));
    a24.push(Json::Str("im-message-send".to_owned()));
    a24.push(Json::Str("--to-user-id".to_owned()));
    a24.push(Json::Str("<to_user_id>".to_owned()));
    a24.push(Json::Str("--text".to_owned()));
    a24.push(Json::Str("<text>".to_owned()));
    a24.push(Json::Str("--yes".to_owned()));
    proof {
        lemma_arr_view(a24);
        assert(
            items_view(a24@) =~= seq![JsonV::Str("douyin"@), JsonV::Str("api"@), JsonV::Str("im-message-send"@), JsonV::Str("--to-user-id"@), JsonV::Str("<to_user_id>"@), JsonV::Str("--text"@), JsonV::Str("<text>"@), JsonV::Str("--yes"@)]
        );
    }
    let x25 = Json::Arr(a24);
    assert(
        x25.jv() == JsonV::Arr(seq![JsonV::Str("douyin"@), JsonV::Str("api"@), JsonV::Str("im-message-send"@), JsonV::Str("--to-user-id"@), JsonV::Str("<to_user_id>"@), JsonV::Str("--text"@), JsonV::Str("<text>"@), JsonV::Str("--yes"@)])
    );
    insert_str(&mut e15, "imMessageSend", x25);
    let mut a26: Vec<Json> = Vec::new();
    a26.push(Json::Str("douyin".to_owned()));
    a26.push(Json::Str("api".to_owned()));
    a26.push(Json::Str("request".to_owned()));
    a26.push(Json::Str("<method>".to_owned()));
    a26.push(Json::Str("<path>".to_owned()));
    proof {
        lemma_arr_view(a26);
        assert(
            items_view(a26@) =~= seq![JsonV::Str("douyin"@), JsonV::Str("api"@), JsonV::Str("request"@), JsonV::Str("<method>"@), JsonV::Str("<path>"@)]
        );
    }
    let x27 = Json::Arr(a26);
    assert(
        x27.jv() == JsonV::Arr(seq![JsonV::Str("douyin"@), JsonV::Str("api"@), JsonV::Str("request"@), JsonV::Str("<method>"@), JsonV::Str("<path>"@)])
    );
    insert_str(&mut e15, "request", x27);
    proof { lemma_obj_view(e15); }
    let x28 = Json::Obj(e15);
    insert_str(&mut e14, "commands", x28);
    proof { lemma_obj_view(e14); }
    let x29 = Json::Obj(e14);
    insert_str(&mut e1, "openapi", x29);
    let mut e30: Vec<(String, Json)> = Vec::new();
    assert(entries_view(e30@) =~= Seq::<(Seq<char>, JsonV)>::empty());
    insert_str(&mut e30, "clientKey", Json::Str("DOUYIN_CLIENT_KEY".to_owned()));
    insert_str(&mut e30, "clientSecret", Json::Str("DOUYIN_CLIENT_SECRET".to_owned()));
    insert_str(&mut e30, "accessToken", Json::Str("DOUYIN_ACCESS_TOKEN".to_owned()));
    insert_str(&mut e30, "home", Json::Str("DOUYIN_HOME".to_owned()));
    proof { lemma_obj_view(e30); }
    let x31 = Json::Obj(e30);
    insert_str(&mut e1, "environment", x31);
    proof { lemma_obj_view(e1); }
    let x32 = Json::Obj(e1);
    x32
}

} // verus!
