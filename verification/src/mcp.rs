//! The MCP server over standard input and output: the JSON-RPC messages it
//! answers, the tools it lists, and what each tool call does. A call that
//! needs the open platform comes back as the request to send; the reply to
//! that request then makes the answer.
use vstd::prelude::*;
use crate::api::{auth_pair, authed};
use crate::insights::{analysis, analyze, recs, TextRecord};
use crate::json::{
    entries_view, insert_str, items_view, json_text, lemma_arr_view, lemma_obj_view, lookup, set_entry, Json, JsonV,
};
use crate::openapi::{
    base_client, base_url, im_body, im_message_body, opt_json, OpenApiClient, RequestSpec, RequestView,
};
use crate::settings::{saved_string, saved_text};
use crate::target::opt_str_view;
use crate::text::{join_str, signed_decimal, signed_decimal_chars, string_of};

verus! {

broadcast use vstd::string::group_string_axioms;

/// The input schema of the offline text tools.
pub open spec fn insights_schema() -> JsonV {
    JsonV::Obj(
        set_entry(
            set_entry(
                set_entry(Seq::empty(), "type"@, JsonV::Str("object"@)),
                "properties"@,
                JsonV::Obj(
                    set_entry(
                        set_entry(
                            set_entry(
                                Seq::empty(),
                                "texts"@,
                                JsonV::Obj(
                                    set_entry(
                                        set_entry(Seq::empty(), "type"@, JsonV::Str("array"@)),
                                        "items"@,
                                        JsonV::Obj(
                                            set_entry(Seq::empty(), "type"@, JsonV::Str("string"@)),
                                        ),
                                    ),
                                ),
                            ),
                            "top"@,
                            JsonV::Obj(
                                set_entry(
                                    set_entry(
                                        set_entry(Seq::empty(), "type"@, JsonV::Str("integer"@)),
                                        "default"@,
                                        JsonV::UInt(20),
                                    ),
                                    "minimum"@,
                                    JsonV::UInt(0),
                                ),
                            ),
                        ),
                        "min_count"@,
                        JsonV::Obj(
                            set_entry(
                                set_entry(
                                    set_entry(Seq::empty(), "type"@, JsonV::Str("integer"@)),
                                    "default"@,
                                    JsonV::UInt(2),
                                ),
                                "minimum"@,
                                JsonV::UInt(1),
                            ),
                        ),
                    ),
                ),
            ),
            "required"@,
            JsonV::Arr(seq![JsonV::Str("texts"@)]),
        ),
    )
}

fn insights_schema_json() -> (r: Json)
    ensures
        r.jv() == insights_schema(),
{
    let mut e1: Vec<(String, Json)> = Vec::new();
    assert(entries_view(e1@) =~= Seq::<(Seq<char>, JsonV)>::empty());
    insert_str(&mut e1, "type", Json::Str("object".to_owned()));
    let mut e2: Vec<(String, Json)> = Vec::new();
    assert(entries_view(e2@) =~= Seq::<(Seq<char>, JsonV)>::empty());
    let mut e3: Vec<(String, Json)> = Vec::new();
    assert(entries_view(e3@) =~= Seq::<(Seq<char>, JsonV)>::empty());
    insert_str(&mut e3, "type", Json::Str("array".to_owned()));
    let mut e4: Vec<(String, Json)> = Vec::new();
    assert(entries_view(e4@) =~= Seq::<(Seq<char>, JsonV)>::empty());
    insert_str(&mut e4, "type", Json::Str("string".to_owned()));
    proof { lemma_obj_view(e4); }
    let x5 = Json::Obj(e4);
    insert_str(&mut e3, "items", x5);
    proof { lemma_obj_view(e3); }
    let x6 = Json::Obj(e3);
    insert_str(&mut e2, "texts", x6);
    let mut e7: Vec<(String, Json)> = Vec::new();
    assert(entries_view(e7@) =~= Seq::<(Seq<char>, JsonV)>::empty());
    insert_str(&mut e7, "type", Json::Str("integer".to_owned()));
    insert_str(&mut e7, "default", Json::UInt(20));
    insert_str(&mut e7, "minimum", Json::UInt(0));
    proof { lemma_obj_view(e7); }
    let x8 = Json::Obj(e7);
    insert_str(&mut e2, "top", x8);
    let mut e9: Vec<(String, Json)> = Vec::new();
    assert(entries_view(e9@) =~= Seq::<(Seq<char>, JsonV)>::empty());
    insert_str(&mut e9, "type", Json::Str("integer".to_owned()));
    insert_str(&mut e9, "default", Json::UInt(2));
    insert_str(&mut e9, "minimum", Json::UInt(1));
    proof { lemma_obj_view(e9); }
    let x10 = Json::Obj(e9);
    insert_str(&mut e2, "min_count", x10);
    proof { lemma_obj_view(e2); }
    let x11 = Json::Obj(e2);
    insert_str(&mut e1, "properties", x11);
    let mut a12: Vec<Json> = Vec::new();
    a12.push(Json::Str("texts".to_owned()));
    proof { lemma_arr_view(a12); assert(items_view(a12@) =~= seq![JsonV::Str("texts"@)]); }
    let x13 = Json::Arr(a12);
    assert(x13.jv() == JsonV::Arr(seq![JsonV::Str("texts"@)]));
    insert_str(&mut e1, "required", x13);
    proof { lemma_obj_view(e1); }
    let x14 = Json::Obj(e1);
    x14
}

/// The input schema of a tool without arguments.
pub open spec fn empty_schema() -> JsonV {
    JsonV::Obj(
        set_entry(
            set_entry(Seq::empty(), "type"@, JsonV::Str("object"@)),
            "properties"@,
            JsonV::Obj(Seq::empty()),
        ),
    )
}

fn empty_schema_json() -> (r: Json)
    ensures
        r.jv() == empty_schema(),
{
    let mut e1: Vec<(String, Json)> = Vec::new();
    assert(entries_view(e1@) =~= Seq::<(Seq<char>, JsonV)>::empty());
    insert_str(&mut e1, "type", Json::Str("object".to_owned()));
    let mut e2: Vec<(String, Json)> = Vec::new();
    assert(entries_view(e2@) =~= Seq::<(Seq<char>, JsonV)>::empty());
    proof { lemma_obj_view(e2); }
    let x3 = Json::Obj(e2);
    insert_str(&mut e1, "properties", x3);
    proof { lemma_obj_view(e1); }
    let x4 = Json::Obj(e1);
    x4
}

/// The own arguments of `comment_list`.
pub open spec fn comment_list_props() -> Seq<(Seq<char>, JsonV)> {
    set_entry(
        set_entry(
            set_entry(
                Seq::empty(),
                "item_id"@,
                JsonV::Obj(set_entry(Seq::empty(), "type"@, JsonV::Str("string"@))),
            ),
            "cursor"@,
            JsonV::Obj(
                set_entry(
                    set_entry(Seq::empty(), "type"@, JsonV::Str("integer"@)),
                    "default"@,
                    JsonV::UInt(0),
                ),
            ),
        ),
        "count"@,
        JsonV::Obj(
            set_entry(
                set_entry(Seq::empty(), "type"@, JsonV::Str("integer"@)),
                "default"@,
                JsonV::UInt(20),
            ),
        ),
    )
}

fn comment_list_props_entries() -> (r: Vec<(String, Json)>)
    ensures
        entries_view(r@) == comment_list_props(),
{
    let mut e1: Vec<(String, Json)> = Vec::new();
    assert(entries_view(e1@) =~= Seq::<(Seq<char>, JsonV)>::empty());
    let mut e2: Vec<(String, Json)> = Vec::new();
    assert(entries_view(e2@) =~= Seq::<(Seq<char>, JsonV)>::empty());
    insert_str(&mut e2, "type", Json::Str("string".to_owned()));
    proof { lemma_obj_view(e2); }
    let x3 = Json::Obj(e2);
    insert_str(&mut e1, "item_id", x3);
    let mut e4: Vec<(String, Json)> = Vec::new();
    assert(entries_view(e4@) =~= Seq::<(Seq<char>, JsonV)>::empty());
    insert_str(&mut e4, "type", Json::Str("integer".to_owned()));
    insert_str(&mut e4, "default", Json::UInt(0));
    proof { lemma_obj_view(e4); }
    let x5 = Json::Obj(e4);
    insert_str(&mut e1, "cursor", x5);
    let mut e6: Vec<(String, Json)> = Vec::new();
    assert(entries_view(e6@) =~= Seq::<(Seq<char>, JsonV)>::empty());
    insert_str(&mut e6, "type", Json::Str("integer".to_owned()));
    insert_str(&mut e6, "default", Json::UInt(20));
    proof { lemma_obj_view(e6); }
    let x7 = Json::Obj(e6);
    insert_str(&mut e1, "count", x7);
    e1
}

/// The own arguments of `comment_replies`.
pub open spec fn comment_replies_props() -> Seq<(Seq<char>, JsonV)> {
    set_entry(
        set_entry(
            set_entry(
                set_entry(
                    Seq::empty(),
                    "item_id"@,
                    JsonV::Obj(set_entry(Seq::empty(), "type"@, JsonV::Str("string"@))),
                ),
                "comment_id"@,
                JsonV::Obj(set_entry(Seq::empty(), "type"@, JsonV::Str("string"@))),
            ),
            "cursor"@,
            JsonV::Obj(
                set_entry(
                    set_entry(Seq::empty(), "type"@, JsonV::Str("integer"@)),
                    "default"@,
                    JsonV::UInt(0),
                ),
            ),
        ),
        "count"@,
        JsonV::Obj(
            set_entry(
                set_entry(Seq::empty(), "type"@, JsonV::Str("integer"@)),
                "default"@,
                JsonV::UInt(20),
            ),
        ),
    )
}

fn comment_replies_props_entries() -> (r: Vec<(String, Json)>)
    ensures
        entries_view(r@) == comment_replies_props(),
{
    let mut e1: Vec<(String, Json)> = Vec::new();
    assert(entries_view(e1@) =~= Seq::<(Seq<char>, JsonV)>::empty());
    let mut e2: Vec<(String, Json)> = Vec::new();
    assert(entries_view(e2@) =~= Seq::<(Seq<char>, JsonV)>::empty());
    insert_str(&mut e2, "type", Json::Str("string".to_owned()));
    proof { lemma_obj_view(e2); }
    let x3 = Json::Obj(e2);
    insert_str(&mut e1, "item_id", x3);
    let mut e4: Vec<(String, Json)> = Vec::new();
    assert(entries_view(e4@) =~= Seq::<(Seq<char>, JsonV)>::empty());
    insert_str(&mut e4, "type", Json::Str("string".to_owned()));
    proof { lemma_obj_view(e4); }
    let x5 = Json::Obj(e4);
    insert_str(&mut e1, "comment_id", x5);
    let mut e6: Vec<(String, Json)> = Vec::new();
    assert(entries_view(e6@) =~= Seq::<(Seq<char>, JsonV)>::empty());
    insert_str(&mut e6, "type", Json::Str("integer".to_owned()));
    insert_str(&mut e6, "default", Json::UInt(0));
    proof { lemma_obj_view(e6); }
    let x7 = Json::Obj(e6);
    insert_str(&mut e1, "cursor", x7);
    let mut e8: Vec<(String, Json)> = Vec::new();
    assert(entries_view(e8@) =~= Seq::<(Seq<char>, JsonV)>::empty());
    insert_str(&mut e8, "type", Json::Str("integer".to_owned()));
    insert_str(&mut e8, "default", Json::UInt(20));
    proof { lemma_obj_view(e8); }
    let x9 = Json::Obj(e8);
    insert_str(&mut e1, "count", x9);
    e1
}

/// The own arguments of `comment_reply`.
pub open spec fn comment_reply_props() -> Seq<(Seq<char>, JsonV)> {
    set_entry(
        set_entry(
            set_entry(
                Seq::empty(),
                "item_id"@,
                JsonV::Obj(set_entry(Seq::empty(), "type"@, JsonV::Str("string"@))),
            ),
            "content"@,
            JsonV::Obj(set_entry(Seq::empty(), "type"@, JsonV::Str("string"@))),
        ),
        "comment_id"@,
        JsonV::Obj(set_entry(Seq::empty(), "type"@, JsonV::Str("string"@))),
    )
}

fn comment_reply_props_entries() -> (r: Vec<(String, Json)>)
    ensures
        entries_view(r@) == comment_reply_props(),
{
    let mut e1: Vec<(String, Json)> = Vec::new();
    assert(entries_view(e1@) =~= Seq::<(Seq<char>, JsonV)>::empty());
    let mut e2: Vec<(String, Json)> = Vec::new();
    assert(entries_view(e2@) =~= Seq::<(Seq<char>, JsonV)>::empty());
    insert_str(&mut e2, "type", Json::Str("string".to_owned()));
    proof { lemma_obj_view(e2); }
    let x3 = Json::Obj(e2);
    insert_str(&mut e1, "item_id", x3);
    let mut e4: Vec<(String, Json)> = Vec::new();
    assert(entries_view(e4@) =~= Seq::<(Seq<char>, JsonV)>::empty());
    insert_str(&mut e4, "type", Json::Str("string".to_owned()));
    proof { lemma_obj_view(e4); }
    let x5 = Json::Obj(e4);
    insert_str(&mut e1, "content", x5);
    let mut e6: Vec<(String, Json)> = Vec::new();
    assert(entries_view(e6@) =~= Seq::<(Seq<char>, JsonV)>::empty());
    insert_str(&mut e6, "type", Json::Str("string".to_owned()));
    proof { lemma_obj_view(e6); }
    let x7 = Json::Obj(e6);
    insert_str(&mut e1, "comment_id", x7);
    e1
}

/// The own arguments of `im_message_send`.
pub open spec fn im_message_props() -> Seq<(Seq<char>, JsonV)> {
    set_entry(
        set_entry(
            set_entry(
                set_entry(
                    set_entry(
                        set_entry(
                            set_entry(
                                set_entry(
                                    Seq::empty(),
                                    "to_user_id"@,
                                    JsonV::Obj(
                                        set_entry(Seq::empty(), "type"@, JsonV::Str("string"@)),
                                    ),
                                ),
                                "message_type"@,
                                JsonV::Obj(
                                    set_entry(
                                        set_entry(
                                            set_entry(Seq::empty(), "type"@, JsonV::Str("string"@)),
                                            "enum"@,
                                            JsonV::Arr(
                                                seq![
                                                    JsonV::Str("text"@),
                                                    JsonV::Str("image"@),
                                                    JsonV::Str("video"@),
                                                    JsonV::Str("card"@),
                                                ],
                                            ),
                                        ),
                                        "default"@,
                                        JsonV::Str("text"@),
                                    ),
                                ),
                            ),
                            "text"@,
                            JsonV::Obj(set_entry(Seq::empty(), "type"@, JsonV::Str("string"@))),
                        ),
                        "media_id"@,
                        JsonV::Obj(set_entry(Seq::empty(), "type"@, JsonV::Str("string"@))),
                    ),
                    "item_id"@,
                    JsonV::Obj(set_entry(Seq::empty(), "type"@, JsonV::Str("string"@))),
                ),
                "card_id"@,
                JsonV::Obj(set_entry(Seq::empty(), "type"@, JsonV::Str("string"@))),
            ),
            "persona_id"@,
            JsonV::Obj(set_entry(Seq::empty(), "type"@, JsonV::Str("string"@))),
        ),
        "client_msg_id"@,
        JsonV::Obj(set_entry(Seq::empty(), "type"@, JsonV::Str("string"@))),
    )
}

fn im_message_props_entries() -> (r: Vec<(String, Json)>)
    ensures
        entries_view(r@) == im_message_props(),
{
    let mut e1: Vec<(String, Json)> = Vec::new();
    assert(entries_view(e1@) =~= Seq::<(Seq<char>, JsonV)>::empty());
    let mut e2: Vec<(String, Json)> = Vec::new();
    assert(entries_view(e2@) =~= Seq::<(Seq<char>, JsonV)>::empty());
    insert_str(&mut e2, "type", Json::Str("string".to_owned()));
    proof { lemma_obj_view(e2); }
    let x3 = Json::Obj(e2);
    insert_str(&mut e1, "to_user_id", x3);
    let mut e4: Vec<(String, Json)> = Vec::new();
    assert(entries_view(e4@) =~= Seq::<(Seq<char>, JsonV)>::empty());
    insert_str(&mut e4, "type", Json::Str("string".to_owned()));
    let mut a5: Vec<Json> = Vec::new();
    a5.push(Json::Str("text".to_owned()));
    a5.push(Json::Str("image".to_owned()));
    a5.push(Json::Str("video".to_owned()));
    a5.push(Json::Str("card".to_owned()));
    proof {
        lemma_arr_view(a5);
        assert(
            items_view(a5@) =~= seq![JsonV::Str("text"@), JsonV::Str("image"@), JsonV::Str("video"@), JsonV::Str("card"@)]
        );
    }
    let x6 = Json::Arr(a5);
    assert(
        x6.jv() == JsonV::Arr(seq![JsonV::Str("text"@), JsonV::Str("image"@), JsonV::Str("video"@), JsonV::Str("card"@)])
    );
    insert_str(&mut e4, "enum", x6);
    insert_str(&mut e4, "default", Json::Str("text".to_owned()));
    proof { lemma_obj_view(e4); }
    let x7 = Json::Obj(e4);
    insert_str(&mut e1, "message_type", x7);
    let mut e8: Vec<(String, Json)> = Vec::new();
    assert(entries_view(e8@) =~= Seq::<(Seq<char>, JsonV)>::empty());
    insert_str(&mut e8, "type", Json::Str("string".to_owned()));
    proof { lemma_obj_view(e8); }
    let x9 = Json::Obj(e8);
    insert_str(&mut e1, "text", x9);
    let mut e10: Vec<(String, Json)> = Vec::new();
    assert(entries_view(e10@) =~= Seq::<(Seq<char>, JsonV)>::empty());
    insert_str(&mut e10, "type", Json::Str("string".to_owned()));
    proof { lemma_obj_view(e10); }
    let x11 = Json::Obj(e10);
    insert_str(&mut e1, "media_id", x11);
    let mut e12: Vec<(String, Json)> = Vec::new();
    assert(entries_view(e12@) =~= Seq::<(Seq<char>, JsonV)>::empty());
    insert_str(&mut e12, "type", Json::Str("string".to_owned()));
    proof { lemma_obj_view(e12); }
    let x13 = Json::Obj(e12);
    insert_str(&mut e1, "item_id", x13);
    let mut e14: Vec<(String, Json)> = Vec::new();
    assert(entries_view(e14@) =~= Seq::<(Seq<char>, JsonV)>::empty());
    insert_str(&mut e14, "type", Json::Str("string".to_owned()));
    proof { lemma_obj_view(e14); }
    let x15 = Json::Obj(e14);
    insert_str(&mut e1, "card_id", x15);
    let mut e16: Vec<(String, Json)> = Vec::new();
    assert(entries_view(e16@) =~= Seq::<(Seq<char>, JsonV)>::empty());
    insert_str(&mut e16, "type", Json::Str("string".to_owned()));
    proof { lemma_obj_view(e16); }
    let x17 = Json::Obj(e16);
    insert_str(&mut e1, "persona_id", x17);
    let mut e18: Vec<(String, Json)> = Vec::new();
    assert(entries_view(e18@) =~= Seq::<(Seq<char>, JsonV)>::empty());
    insert_str(&mut e18, "type", Json::Str("string".to_owned()));
    proof { lemma_obj_view(e18); }
    let x19 = Json::Obj(e18);
    insert_str(&mut e1, "client_msg_id", x19);
    e1
}

/// The input schema of `openapi_request`.
pub open spec fn openapi_request_schema() -> JsonV {
    JsonV::Obj(
        set_entry(
            set_entry(
                set_entry(Seq::empty(), "type"@, JsonV::Str("object"@)),
                "properties"@,
                JsonV::Obj(
                    set_entry(
                        set_entry(
                            set_entry(
                                set_entry(
                                    set_entry(
                                        set_entry(
                                            set_entry(
                                                Seq::empty(),
                                                "method"@,
                                                JsonV::Obj(
                                                    set_entry(
                                                        Seq::empty(),
                                                        "type"@,
                                                        JsonV::Str("string"@),
                                                    ),
                                                ),
                                            ),
                                            "path"@,
                                            JsonV::Obj(
                                                set_entry(
                                                    Seq::empty(),
                                                    "type"@,
                                                    JsonV::Str("string"@),
                                                ),
                                            ),
                                        ),
                                        "token"@,
                                        JsonV::Obj(
                                            set_entry(Seq::empty(), "type"@, JsonV::Str("string"@)),
                                        ),
                                    ),
                                    "params"@,
                                    JsonV::Obj(
                                        set_entry(
                                            set_entry(Seq::empty(), "type"@, JsonV::Str("object"@)),
                                            "additionalProperties"@,
                                            JsonV::Obj(
                                                set_entry(
                                                    Seq::empty(),
                                                    "type"@,
                                                    JsonV::Str("string"@),
                                                ),
                                            ),
                                        ),
                                    ),
                                ),
                                "json_body"@,
                                JsonV::Obj(
                                    set_entry(
                                        Seq::empty(),
                                        "type"@,
                                        JsonV::Arr(
                                            seq![JsonV::Str("object"@), JsonV::Str("array"@)],
                                        ),
                                    ),
                                ),
                            ),
                            "form"@,
                            JsonV::Obj(
                                set_entry(
                                    set_entry(Seq::empty(), "type"@, JsonV::Str("object"@)),
                                    "additionalProperties"@,
                                    JsonV::Obj(
                                        set_entry(Seq::empty(), "type"@, JsonV::Str("string"@)),
                                    ),
                                ),
                            ),
                        ),
                        "headers"@,
                        JsonV::Obj(
                            set_entry(
                                set_entry(Seq::empty(), "type"@, JsonV::Str("object"@)),
                                "additionalProperties"@,
                                JsonV::Obj(set_entry(Seq::empty(), "type"@, JsonV::Str("string"@))),
                            ),
                        ),
                    ),
                ),
            ),
            "required"@,
            JsonV::Arr(seq![JsonV::Str("method"@), JsonV::Str("path"@)]),
        ),
    )
}

fn openapi_request_schema_json() -> (r: Json)
    ensures
        r.jv() == openapi_request_schema(),
{
    let mut e1: Vec<(String, Json)> = Vec::new();
    assert(entries_view(e1@) =~= Seq::<(Seq<char>, JsonV)>::empty());
    insert_str(&mut e1, "type", Json::Str("object".to_owned()));
    let mut e2: Vec<(String, Json)> = Vec::new();
    assert(entries_view(e2@) =~= Seq::<(Seq<char>, JsonV)>::empty());
    let mut e3: Vec<(String, Json)> = Vec::new();
    assert(entries_view(e3@) =~= Seq::<(Seq<char>, JsonV)>::empty());
    insert_str(&mut e3, "type", Json::Str("string".to_owned()));
    proof { lemma_obj_view(e3); }
    let x4 = Json::Obj(e3);
    insert_str(&mut e2, "method", x4);
    let mut e5: Vec<(String, Json)> = Vec::new();
    assert(entries_view(e5@) =~= Seq::<(Seq<char>, JsonV)>::empty());
    insert_str(&mut e5, "type", Json::Str("string".to_owned()));
    proof { lemma_obj_view(e5); }
    let x6 = Json::Obj(e5);
    insert_str(&mut e2, "path", x6);
    let mut e7: Vec<(String, Json)> = Vec::new();
    assert(entries_view(e7@) =~= Seq::<(Seq<char>, JsonV)>::empty());
    insert_str(&mut e7, "type", Json::Str("string".to_owned()));
    proof { lemma_obj_view(e7); }
    let x8 = Json::Obj(e7);
    insert_str(&mut e2, "token", x8);
    let mut e9: Vec<(String, Json)> = Vec::new();
    assert(entries_view(e9@) =~= Seq::<(Seq<char>, JsonV)>::empty());
    insert_str(&mut e9, "type", Json::Str("object".to_owned()));
    let mut e10: Vec<(String, Json)> = Vec::new();
    assert(entries_view(e10@) =~= Seq::<(Seq<char>, JsonV)>::empty());
    insert_str(&mut e10, "type", Json::Str("string".to_owned()));
    proof { lemma_obj_view(e10); }
    let x11 = Json::Obj(e10);
    insert_str(&mut e9, "additionalProperties", x11);
    proof { lemma_obj_view(e9); }
    let x12 = Json::Obj(e9);
    insert_str(&mut e2, "params", x12);
    let mut e13: Vec<(String, Json)> = Vec::new();
    assert(entries_view(e13@) =~= Seq::<(Seq<char>, JsonV)>::empty());
    let mut a14: Vec<Json> = Vec::new();
    a14.push(Json::Str("object".to_owned()));
    a14.push(Json::Str("array".to_owned()));
    proof {
        lemma_arr_view(a14);
        assert(items_view(a14@) =~= seq![JsonV::Str("object"@), JsonV::Str("array"@)]);
    }
    let x15 = Json::Arr(a14);
    assert(x15.jv() == JsonV::Arr(seq![JsonV::Str("object"@), JsonV::Str("array"@)]));
    insert_str(&mut e13, "type", x15);
    proof { lemma_obj_view(e13); }
    let x16 = Json::Obj(e13);
    insert_str(&mut e2, "json_body", x16);
    let mut e17: Vec<(String, Json)> = Vec::new();
    assert(entries_view(e17@) =~= Seq::<(Seq<char>, JsonV)>::empty());
    insert_str(&mut e17, "type", Json::Str("object".to_owned()));
    let mut e18: Vec<(String, Json)> = Vec::new();
    assert(entries_view(e18@) =~= Seq::<(Seq<char>, JsonV)>::empty());
    insert_str(&mut e18, "type", Json::Str("string".to_owned()));
    proof { lemma_obj_view(e18); }
    let x19 = Json::Obj(e18);
    insert_str(&mut e17, "additionalProperties", x19);
    proof { lemma_obj_view(e17); }
    let x20 = Json::Obj(e17);
    insert_str(&mut e2, "form", x20);
    let mut e21: Vec<(String, Json)> = Vec::new();
    assert(entries_view(e21@) =~= Seq::<(Seq<char>, JsonV)>::empty());
    insert_str(&mut e21, "type", Json::Str("object".to_owned()));
    let mut e22: Vec<(String, Json)> = Vec::new();
    assert(entries_view(e22@) =~= Seq::<(Seq<char>, JsonV)>::empty());
    insert_str(&mut e22, "type", Json::Str("string".to_owned()));
    proof { lemma_obj_view(e22); }
    let x23 = Json::Obj(e22);
    insert_str(&mut e21, "additionalProperties", x23);
    proof { lemma_obj_view(e21); }
    let x24 = Json::Obj(e21);
    insert_str(&mut e2, "headers", x24);
    proof { lemma_obj_view(e2); }
    let x25 = Json::Obj(e2);
    insert_str(&mut e1, "properties", x25);
    let mut a26: Vec<Json> = Vec::new();
    a26.push(Json::Str("method".to_owned()));
    a26.push(Json::Str("path".to_owned()));
    proof {
        lemma_arr_view(a26);
        assert(items_view(a26@) =~= seq![JsonV::Str("method"@), JsonV::Str("path"@)]);
    }
    let x27 = Json::Arr(a26);
    assert(x27.jv() == JsonV::Arr(seq![JsonV::Str("method"@), JsonV::Str("path"@)]));
    insert_str(&mut e1, "required", x27);
    proof { lemma_obj_view(e1); }
    let x28 = Json::Obj(e1);
    x28
}

/// The capabilities the server announces.
pub open spec fn server_capabilities() -> JsonV {
    JsonV::Obj(
        set_entry(
            Seq::empty(),
            "tools"@,
            JsonV::Obj(set_entry(Seq::empty(), "listChanged"@, JsonV::Bool(false))),
        ),
    )
}

fn server_capabilities_json() -> (r: Json)
    ensures
        r.jv() == server_capabilities(),
{
    let mut e1: Vec<(String, Json)> = Vec::new();
    assert(entries_view(e1@) =~= Seq::<(Seq<char>, JsonV)>::empty());
    let mut e2: Vec<(String, Json)> = Vec::new();
    assert(entries_view(e2@) =~= Seq::<(Seq<char>, JsonV)>::empty());
    insert_str(&mut e2, "listChanged", Json::Bool(false));
    proof { lemma_obj_view(e2); }
    let x3 = Json::Obj(e2);
    insert_str(&mut e1, "tools", x3);
    proof { lemma_obj_view(e1); }
    let x4 = Json::Obj(e1);
    x4
}

/// The schema of a text argument.
pub open spec fn string_schema() -> JsonV {
    JsonV::Obj(set_entry(Seq::empty(), "type"@, JsonV::Str("string"@)))
}

fn string_schema_json() -> (r: Json)
    ensures
        r.jv() == string_schema(),
{
    let mut e1: Vec<(String, Json)> = Vec::new();
    assert(entries_view(e1@) =~= Seq::<(Seq<char>, JsonV)>::empty());
    insert_str(&mut e1, "type", Json::Str("string".to_owned()));
    proof { lemma_obj_view(e1); }
    let x2 = Json::Obj(e1);
    x2
}

/// The protocol version answered when the client asks for one the server
/// does not know.
pub open spec fn protocol_version() -> Seq<char> {
    "2025-11-25"@
}

/// The protocol versions the server speaks.
pub open spec fn supported_version(v: Seq<char>) -> bool {
    v == "2024-11-05"@ || v == "2025-03-26"@ || v == "2025-06-18"@ || v == "2025-11-25"@
}

/// The value at `a`, then `b`, inside a document (`pointer("/a/b")`).
pub open spec fn at2(v: JsonV, a: Seq<char>, b: Seq<char>) -> Option<JsonV> {
    match v.get(a) {
        Some(x) => x.get(b),
        None => None,
    }
}

/// The answer to `initialize`: the requested protocol version when the
/// server speaks it, else its own.
pub open spec fn initialize_result(request: JsonV, version: Seq<char>) -> JsonV {
    let requested = match at2(request, "params"@, "protocolVersion"@) {
        Some(JsonV::Str(s)) => s,
        _ => protocol_version(),
    };
    let v = if supported_version(requested) {
        requested
    } else {
        protocol_version()
    };
    let info = set_entry(set_entry(Seq::empty(), "name"@, JsonV::Str("douyin"@)), "version"@, JsonV::Str(version));
    JsonV::Obj(
        set_entry(
            set_entry(
                set_entry(
                    set_entry(Seq::empty(), "protocolVersion"@, JsonV::Str(v)),
                    "capabilities"@,
                    server_capabilities(),
                ),
                "serverInfo"@,
                JsonV::Obj(info),
            ),
            "instructions"@,
            JsonV::Str(
                "抖音开放平台 OpenAPI MCP 服务器。默认读取 douyin auth 保存的 access_token/open_id，也可以在工具参数中显式传入。"@,
            ),
        ),
    )
}

fn pointer2<'a>(v: &'a Json, a: &str, b: &str) -> (r: Option<&'a Json>)
    ensures
        r matches Some(x) ==> at2(v.jv(), a@, b@) == Some(x.jv()),
        r is None ==> at2(v.jv(), a@, b@) is None,
{
    match v.get(a) {
        Some(x) => x.get(b),
        None => None,
    }
}

fn initialize(request: &Json, version: &str) -> (r: Json)
    ensures
        r.jv() == initialize_result(request.jv(), version@),
{
    let requested: String = match pointer2(request, "params", "protocolVersion") {
        Some(Json::Str(s)) => s.clone(),
        _ => "2025-11-25".to_owned(),
    };
    let r = requested.as_str();
    let known = crate::json::str_eq(r, "2024-11-05") || crate::json::str_eq(r, "2025-03-26")
        || crate::json::str_eq(r, "2025-06-18") || crate::json::str_eq(r, "2025-11-25");
    let v = if known {
        requested
    } else {
        "2025-11-25".to_owned()
    };
    let mut info: Vec<(String, Json)> = Vec::new();
    assert(entries_view(info@) =~= Seq::<(Seq<char>, JsonV)>::empty());
    insert_str(&mut info, "name", Json::Str("douyin".to_owned()));
    insert_str(&mut info, "version", Json::Str(version.to_owned()));
    proof {
        lemma_obj_view(info);
    }
    let mut es: Vec<(String, Json)> = Vec::new();
    assert(entries_view(es@) =~= Seq::<(Seq<char>, JsonV)>::empty());
    insert_str(&mut es, "protocolVersion", Json::Str(v));
    insert_str(&mut es, "capabilities", server_capabilities_json());
    insert_str(&mut es, "serverInfo", Json::Obj(info));
    insert_str(
        &mut es,
        "instructions",
        Json::Str(
            "抖音开放平台 OpenAPI MCP 服务器。默认读取 douyin auth 保存的 access_token/open_id，也可以在工具参数中显式传入。".to_owned(),
        ),
    );
    proof {
        lemma_obj_view(es);
    }
    Json::Obj(es)
}

/// A JSON-RPC result.
pub open spec fn rpc_ok(id: JsonV, result: JsonV) -> JsonV {
    JsonV::Obj(
        set_entry(set_entry(set_entry(Seq::empty(), "jsonrpc"@, JsonV::Str("2.0"@)), "id"@, id), "result"@, result),
    )
}

/// A JSON-RPC error.
pub open spec fn rpc_error(id: JsonV, code: i64, message: Seq<char>) -> JsonV {
    let error = set_entry(set_entry(Seq::empty(), "code"@, JsonV::NegInt(code)), "message"@, JsonV::Str(message));
    JsonV::Obj(
        set_entry(
            set_entry(set_entry(Seq::empty(), "jsonrpc"@, JsonV::Str("2.0"@)), "id"@, id),
            "error"@,
            JsonV::Obj(error),
        ),
    )
}

/// One text block of tool output.
pub open spec fn text_content(text: Seq<char>) -> JsonV {
    JsonV::Arr(
        seq![JsonV::Obj(set_entry(set_entry(Seq::empty(), "type"@, JsonV::Str("text"@)), "text"@, JsonV::Str(text)))],
    )
}

/// The result of a tool that failed with `message`.
pub open spec fn tool_failure(message: Seq<char>) -> JsonV {
    JsonV::Obj(set_entry(set_entry(Seq::empty(), "content"@, text_content(message)), "isError"@, JsonV::Bool(true)))
}

/// The result of a tool that gave `result`: as compact JSON text and as the
/// document itself.
pub open spec fn tool_success(result: JsonV) -> JsonV {
    JsonV::Obj(
        set_entry(
            set_entry(
                set_entry(Seq::empty(), "content"@, text_content(json_text(result))),
                "structuredContent"@,
                result,
            ),
            "isError"@,
            JsonV::Bool(false),
        ),
    )
}

fn rpc_ok_json(id: Json, result: Json) -> (r: Json)
    ensures
        r.jv() == rpc_ok(id.jv(), result.jv()),
{
    let mut es: Vec<(String, Json)> = Vec::new();
    assert(entries_view(es@) =~= Seq::<(Seq<char>, JsonV)>::empty());
    insert_str(&mut es, "jsonrpc", Json::Str("2.0".to_owned()));
    insert_str(&mut es, "id", id);
    insert_str(&mut es, "result", result);
    proof {
        lemma_obj_view(es);
    }
    Json::Obj(es)
}

fn rpc_error_json(id: Json, code: i64, message: String) -> (r: Json)
    ensures
        r.jv() == rpc_error(id.jv(), code, message@),
{
    let mut error: Vec<(String, Json)> = Vec::new();
    assert(entries_view(error@) =~= Seq::<(Seq<char>, JsonV)>::empty());
    insert_str(&mut error, "code", Json::NegInt(code));
    insert_str(&mut error, "message", Json::Str(message));
    proof {
        lemma_obj_view(error);
    }
    let mut es: Vec<(String, Json)> = Vec::new();
    assert(entries_view(es@) =~= Seq::<(Seq<char>, JsonV)>::empty());
    insert_str(&mut es, "jsonrpc", Json::Str("2.0".to_owned()));
    insert_str(&mut es, "id", id);
    insert_str(&mut es, "error", Json::Obj(error));
    proof {
        lemma_obj_view(es);
    }
    Json::Obj(es)
}

fn text_content_json(text: String) -> (r: Json)
    ensures
        r.jv() == text_content(text@),
{
    let mut block: Vec<(String, Json)> = Vec::new();
    assert(entries_view(block@) =~= Seq::<(Seq<char>, JsonV)>::empty());
    insert_str(&mut block, "type", Json::Str("text".to_owned()));
    insert_str(&mut block, "text", Json::Str(text));
    proof {
        lemma_obj_view(block);
    }
    let b = Json::Obj(block);
    let ghost bv = b.jv();
    let items = vec![b];
    proof {
        lemma_arr_view(items);
        assert(items_view(items@) =~= seq![bv]);
    }
    Json::Arr(items)
}

fn tool_failure_json(message: String) -> (r: Json)
    ensures
        r.jv() == tool_failure(message@),
{
    let mut es: Vec<(String, Json)> = Vec::new();
    assert(entries_view(es@) =~= Seq::<(Seq<char>, JsonV)>::empty());
    insert_str(&mut es, "content", text_content_json(message));
    insert_str(&mut es, "isError", Json::Bool(true));
    proof {
        lemma_obj_view(es);
    }
    Json::Obj(es)
}

fn tool_success_json(result: Json) -> (r: Json)
    ensures
        r.jv() == tool_success(result.jv()),
{
    let text = crate::json::to_json_string(&result);
    let mut es: Vec<(String, Json)> = Vec::new();
    assert(entries_view(es@) =~= Seq::<(Seq<char>, JsonV)>::empty());
    insert_str(&mut es, "content", text_content_json(text));
    insert_str(&mut es, "structuredContent", result);
    insert_str(&mut es, "isError", Json::Bool(false));
    proof {
        lemma_obj_view(es);
    }
    Json::Obj(es)
}

/// A tool as `tools/list` shows it.
pub open spec fn tool_json(name: Seq<char>, description: Seq<char>, schema: JsonV, read_only: bool) -> JsonV {
    let hints = set_entry(
        set_entry(
            set_entry(
                set_entry(Seq::empty(), "readOnlyHint"@, JsonV::Bool(read_only)),
                "destructiveHint"@,
                JsonV::Bool(false),
            ),
            "idempotentHint"@,
            JsonV::Bool(read_only),
        ),
        "openWorldHint"@,
        JsonV::Bool(true),
    );
    JsonV::Obj(
        set_entry(
            set_entry(
                set_entry(set_entry(Seq::empty(), "name"@, JsonV::Str(name)), "description"@, JsonV::Str(description)),
                "inputSchema"@,
                schema,
            ),
            "annotations"@,
            JsonV::Obj(hints),
        ),
    )
}

fn tool(name: &str, description: &str, schema: Json, read_only: bool) -> (r: Json)
    ensures
        r.jv() == tool_json(name@, description@, schema.jv(), read_only),
{
    let mut hints: Vec<(String, Json)> = Vec::new();
    assert(entries_view(hints@) =~= Seq::<(Seq<char>, JsonV)>::empty());
    insert_str(&mut hints, "readOnlyHint", Json::Bool(read_only));
    insert_str(&mut hints, "destructiveHint", Json::Bool(false));
    insert_str(&mut hints, "idempotentHint", Json::Bool(read_only));
    insert_str(&mut hints, "openWorldHint", Json::Bool(true));
    proof {
        lemma_obj_view(hints);
    }
    let mut es: Vec<(String, Json)> = Vec::new();
    assert(entries_view(es@) =~= Seq::<(Seq<char>, JsonV)>::empty());
    insert_str(&mut es, "name", Json::Str(name.to_owned()));
    insert_str(&mut es, "description", Json::Str(description.to_owned()));
    insert_str(&mut es, "inputSchema", schema);
    insert_str(&mut es, "annotations", Json::Obj(hints));
    proof {
        lemma_obj_view(es);
    }
    Json::Obj(es)
}

/// The schema of a tool that calls the platform: its own arguments and the
/// optional `token` and `open_id`.
pub open spec fn auth_schema(extra: Seq<(Seq<char>, JsonV)>) -> JsonV {
    let props = set_entry(set_entry(extra, "token"@, string_schema()), "open_id"@, string_schema());
    JsonV::Obj(set_entry(set_entry(Seq::empty(), "type"@, JsonV::Str("object"@)), "properties"@, JsonV::Obj(props)))
}

/// A schema with the names of its required arguments.
pub open spec fn with_required(schema: JsonV, names: Seq<Seq<char>>) -> JsonV {
    match schema {
        JsonV::Obj(es) => JsonV::Obj(set_entry(es, "required"@, JsonV::Arr(names.map_values(|n: Seq<char>| JsonV::Str(n))))),
        _ => schema,
    }
}

fn auth_schema_entries(extra: Vec<(String, Json)>) -> (r: Vec<(String, Json)>)
    ensures
        JsonV::Obj(entries_view(r@)) == auth_schema(entries_view(extra@)),
{
    let mut props = extra;
    insert_str(&mut props, "token", string_schema_json());
    insert_str(&mut props, "open_id", string_schema_json());
    proof {
        lemma_obj_view(props);
    }
    let mut es: Vec<(String, Json)> = Vec::new();
    assert(entries_view(es@) =~= Seq::<(Seq<char>, JsonV)>::empty());
    insert_str(&mut es, "type", Json::Str("object".to_owned()));
    insert_str(&mut es, "properties", Json::Obj(props));
    es
}

fn required_schema(extra: Vec<(String, Json)>, names: Vec<&str>) -> (r: Json)
    ensures
        r.jv() == with_required(auth_schema(entries_view(extra@)), Seq::new(names@.len(), |i: int| names@[i]@)),
{
    let mut es = auth_schema_entries(extra);
    let ghost base = entries_view(es@);
    let mut items: Vec<Json> = Vec::new();
    let mut i: usize = 0;
    while i < names.len()
        invariant
            i <= names.len(),
            items@.len() == i,
            items_view(items@) == Seq::new(i as nat, |j: int| JsonV::Str(names@[j]@)),
        decreases names.len() - i,
    {
        let ghost before = items@;
        let text = names[i].to_owned();
        assert(text@ == names@[i as int]@);
        items.push(Json::Str(text));
        assert(items@[i as int].jv() == JsonV::Str(names@[i as int]@));
        assert forall|j: int| 0 <= j < i implies items_view(items@)[j] == JsonV::Str(names@[j]@) by {
            assert(items@[j] == before[j]);
            assert(items_view(before)[j] == before[j].jv());
        }
        assert(items_view(items@) =~= Seq::new((i + 1) as nat, |j: int| JsonV::Str(names@[j]@)));
        i = i + 1;
    }
    proof {
        lemma_arr_view(items);
        assert(Seq::new(names@.len(), |j: int| JsonV::Str(names@[j]@)) =~= Seq::new(
            names@.len(),
            |i: int| names@[i]@,
        ).map_values(|n: Seq<char>| JsonV::Str(n)));
    }
    insert_str(&mut es, "required", Json::Arr(items));
    proof {
        lemma_obj_view(es);
    }
    Json::Obj(es)
}

/// The tools the server offers, in the order it lists them.
pub open spec fn tool_list() -> Seq<JsonV> {
    seq![
        tool_json("hot_words"@, "离线发现输入文本中的热词。基于可解释的频次启发式，不表示理解真实语义。"@, insights_schema(), true),
        tool_json("hot_memes"@, "离线发现重复短句、口头禅、emoji 与固定表达。"@, insights_schema(), true),
        tool_json("demand_discovery"@, "离线提取包含购买、求助、功能或问题意图信号的原句。"@, insights_schema(), true),
        tool_json("auth_status"@, "查看本机是否已保存抖音开放平台授权信息。"@, empty_schema(), true),
        tool_json("userinfo"@, "获取官方授权用户信息。"@, auth_schema(Seq::empty()), true),
        tool_json(
            "comment_list"@,
            "获取官方接口中的视频评论列表。"@,
            with_required(auth_schema(comment_list_props()), seq!["item_id"@]),
            true,
        ),
        tool_json(
            "comment_replies"@,
            "获取官方接口中的评论回复列表。"@,
            with_required(auth_schema(comment_replies_props()), seq!["item_id"@, "comment_id"@]),
            true,
        ),
        tool_json(
            "comment_reply"@,
            "通过官方 OpenAPI 回复视频或评论。"@,
            with_required(auth_schema(comment_reply_props()), seq!["item_id"@, "content"@]),
            false,
        ),
        tool_json(
            "im_message_send"@,
            "通过企业号 OpenAPI 发送私信消息。"@,
            with_required(auth_schema(im_message_props()), seq!["to_user_id"@]),
            false,
        ),
        tool_json("openapi_request"@, "调用任意官方 OpenAPI 路径。"@, openapi_request_schema(), false),
    ]
}

/// The tools the server offers; see [`tool_list`].
pub fn tools() -> (r: Vec<Json>)
    ensures
        items_view(r@) == tool_list(),
{
    let mut r: Vec<Json> = Vec::new();
    r.push(tool("hot_words", "离线发现输入文本中的热词。基于可解释的频次启发式，不表示理解真实语义。", insights_schema_json(), true));
    r.push(tool("hot_memes", "离线发现重复短句、口头禅、emoji 与固定表达。", insights_schema_json(), true));
    r.push(tool("demand_discovery", "离线提取包含购买、求助、功能或问题意图信号的原句。", insights_schema_json(), true));
    r.push(tool("auth_status", "查看本机是否已保存抖音开放平台授权信息。", empty_schema_json(), true));
    let none: Vec<(String, Json)> = Vec::new();
    assert(entries_view(none@) =~= Seq::<(Seq<char>, JsonV)>::empty());
    let userinfo_schema = auth_schema_entries(none);
    proof {
        lemma_obj_view(userinfo_schema);
    }
    r.push(tool("userinfo", "获取官方授权用户信息。", Json::Obj(userinfo_schema), true));
    let n1 = vec!["item_id"];
    assert(Seq::new(n1@.len(), |i: int| n1@[i]@) =~= seq!["item_id"@]);
    let n2 = vec!["item_id", "comment_id"];
    assert(Seq::new(n2@.len(), |i: int| n2@[i]@) =~= seq!["item_id"@, "comment_id"@]);
    let n3 = vec!["item_id", "content"];
    assert(Seq::new(n3@.len(), |i: int| n3@[i]@) =~= seq!["item_id"@, "content"@]);
    let n4 = vec!["to_user_id"];
    assert(Seq::new(n4@.len(), |i: int| n4@[i]@) =~= seq!["to_user_id"@]);
    r.push(tool("comment_list", "获取官方接口中的视频评论列表。", required_schema(comment_list_props_entries(), n1), true));
    r.push(
        tool(
            "comment_replies",
            "获取官方接口中的评论回复列表。",
            required_schema(comment_replies_props_entries(), n2),
            true,
        ),
    );
    r.push(
        tool(
            "comment_reply",
            "通过官方 OpenAPI 回复视频或评论。",
            required_schema(comment_reply_props_entries(), n3),
            false,
        ),
    );
    r.push(
        tool(
            "im_message_send",
            "通过企业号 OpenAPI 发送私信消息。",
            required_schema(im_message_props_entries(), n4),
            false,
        ),
    );
    r.push(tool("openapi_request", "调用任意官方 OpenAPI 路径。", openapi_request_schema_json(), false));
    assert(items_view(r@) =~= tool_list());
    r
}


/// Why a tool call failed: an unknown tool is a protocol error, anything else
/// the tool's own failure.
pub enum ToolError {
    Unknown(String),
    Execution(String),
}

/// The plain value of a [`ToolError`].
pub enum ToolFailure {
    Unknown(Seq<char>),
    Execution(Seq<char>),
}

/// What a tool call comes to: its result, or the platform request to send.
pub enum ToolStep {
    Done(Result<Json, ToolError>),
    Call(RequestSpec),
}

/// The plain value of a [`ToolStep`].
pub enum StepView {
    Done(Result<JsonV, ToolFailure>),
    Call(RequestView),
}

impl ToolStep {
    /// The plain value of the step.
    pub open spec fn step(&self) -> StepView {
        match self {
            ToolStep::Done(Ok(j)) => StepView::Done(Ok(j.jv())),
            ToolStep::Done(Err(ToolError::Unknown(n))) => StepView::Done(Err(ToolFailure::Unknown(n@))),
            ToolStep::Done(Err(ToolError::Execution(m))) => StepView::Done(Err(ToolFailure::Execution(m@))),
            ToolStep::Call(r) => StepView::Call(r.view()),
        }
    }
}

/// A step that failed with `message`.
pub open spec fn failed(message: Seq<char>) -> StepView {
    StepView::Done(Err(ToolFailure::Execution(message)))
}

fn fail(message: String) -> (r: ToolStep)
    ensures
        r.step() == failed(message@),
{
    ToolStep::Done(Err(ToolError::Execution(message)))
}

/// A required text argument.
pub open spec fn required_arg(args: Seq<(Seq<char>, JsonV)>, key: Seq<char>) -> Result<Seq<char>, Seq<char>> {
    match saved_text(args, key) {
        Some(s) => Ok(s),
        None => Err("缺少必填参数: "@ + key),
    }
}

fn required_string(args: &Vec<(String, Json)>, key: &str) -> (r: Result<String, String>)
    ensures
        crate::openapi::text_outcome(r) == required_arg(entries_view(args@), key@),
{
    match saved_string(args, key) {
        Some(s) => Ok(s),
        None => Err(join_str("缺少必填参数: ", key)),
    }
}

/// An integer argument, `default` when it is missing or no `i64`.
pub open spec fn int_arg(args: Seq<(Seq<char>, JsonV)>, key: Seq<char>, default: i64) -> i64 {
    match lookup(args, key) {
        Some(v) => match v.as_i64() {
            Some(n) => n,
            None => default,
        },
        None => default,
    }
}

fn integer(args: &Vec<(String, Json)>, key: &str, default: i64) -> (r: i64)
    ensures
        r == int_arg(entries_view(args@), key@, default),
{
    let k = crate::text::chars_of(key);
    match crate::json::lookup_entry(args, k.as_slice()) {
        Some(v) => match v.as_i64() {
            Some(n) => n,
            None => default,
        },
        None => default,
    }
}

/// A non-negative integer argument, `default` when it is missing.
pub open spec fn count_arg(args: Seq<(Seq<char>, JsonV)>, key: Seq<char>, default: u64) -> Result<u64, Seq<char>> {
    match lookup(args, key) {
        None => Ok(default),
        Some(v) => match v.as_u64() {
            Some(n) => if n <= usize::MAX {
                Ok(n)
            } else {
                Err("out of range integral type conversion attempted"@)
            },
            None => Err(key + " 必须是非负整数"@),
        },
    }
}

/// The plain value of a numeric outcome.
pub open spec fn num_outcome(r: Result<u64, String>) -> Result<u64, Seq<char>> {
    match r {
        Ok(n) => Ok(n),
        Err(e) => Err(e@),
    }
}

fn non_negative_integer(args: &Vec<(String, Json)>, key: &str, default: u64) -> (r: Result<u64, String>)
    ensures
        num_outcome(r) == count_arg(entries_view(args@), key@, default),
{
    let k = crate::text::chars_of(key);
    match crate::json::lookup_entry(args, k.as_slice()) {
        None => Ok(default),
        Some(v) => match v.as_u64() {
            Some(n) => if n as u128 <= usize::MAX as u128 {
                Ok(n)
            } else {
                Err("out of range integral type conversion attempted".to_owned())
            },
            None => Err(join_str(key, " 必须是非负整数")),
        },
    }
}

/// A positive integer argument, `default` when it is missing.
pub open spec fn positive_arg(args: Seq<(Seq<char>, JsonV)>, key: Seq<char>, default: u64) -> Result<u64, Seq<char>> {
    match lookup(args, key) {
        None => Ok(default),
        Some(v) => match v.as_u64() {
            Some(n) => if n > 0 {
                Ok(n)
            } else {
                Err(key + " 必须是正整数"@)
            },
            None => Err(key + " 必须是正整数"@),
        },
    }
}

fn positive_integer(args: &Vec<(String, Json)>, key: &str, default: u64) -> (r: Result<u64, String>)
    ensures
        num_outcome(r) == positive_arg(entries_view(args@), key@, default),
{
    let k = crate::text::chars_of(key);
    match crate::json::lookup_entry(args, k.as_slice()) {
        None => Ok(default),
        Some(v) => match v.as_u64() {
            Some(n) => if n > 0 {
                Ok(n)
            } else {
                Err(join_str(key, " 必须是正整数"))
            },
            None => Err(join_str(key, " 必须是正整数")),
        },
    }
}

/// Object entries whose values must all be strings, as pairs in order; the
/// first other value is the error.
pub open spec fn text_pairs(es: Seq<(Seq<char>, JsonV)>) -> Result<Seq<(Seq<char>, Seq<char>)>, Seq<char>>
    decreases es.len(),
{
    if es.len() == 0 {
        Ok(Seq::empty())
    } else {
        match text_pairs(es.drop_last()) {
            Err(e) => Err(e),
            Ok(acc) => match es.last().1 {
                JsonV::Str(s) => Ok(acc.push((es.last().0, s))),
                _ => Err(es.last().0 + " 的值必须是字符串"@),
            },
        }
    }
}

/// An argument that, when given, must be an object of strings.
pub open spec fn string_map_arg(args: Seq<(Seq<char>, JsonV)>, key: Seq<char>) -> Result<
    Option<Seq<(Seq<char>, Seq<char>)>>,
    Seq<char>,
> {
    match lookup(args, key) {
        None => Ok(None),
        Some(JsonV::Obj(es)) => match text_pairs(es) {
            Ok(p) => Ok(Some(p)),
            Err(e) => Err(e),
        },
        Some(_) => Err(key + " 必须是对象"@),
    }
}

proof fn lemma_text_pairs_err(es: Seq<(Seq<char>, JsonV)>, n: int)
    requires
        0 <= n <= es.len(),
        text_pairs(es.take(n)) is Err,
    ensures
        text_pairs(es) == text_pairs(es.take(n)),
    decreases es.len() - n,
{
    if n < es.len() {
        assert(es.take(n + 1).drop_last() =~= es.take(n));
        lemma_text_pairs_err(es, n + 1);
    } else {
        assert(es.take(n) =~= es);
    }
}

fn string_map(args: &Vec<(String, Json)>, key: &str) -> (r: Result<Option<Vec<(String, String)>>, String>)
    ensures
        crate::api::pairs_outcome(r) == string_map_arg(entries_view(args@), key@),
{
    let k = crate::text::chars_of(key);
    let es = match crate::json::lookup_entry(args, k.as_slice()) {
        None => return Ok(None),
        Some(Json::Obj(es)) => es,
        Some(_) => return Err(join_str(key, " 必须是对象")),
    };
    proof {
        lemma_obj_view(*es);
    }
    let ghost ev = entries_view(es@);
    let mut out: Vec<(String, String)> = Vec::new();
    let mut i: usize = 0;
    assert(ev.take(0) =~= Seq::<(Seq<char>, JsonV)>::empty());
    while i < es.len()
        invariant
            i <= es.len(),
            ev == entries_view(es@),
            lookup(entries_view(args@), key@) == Some(JsonV::Obj(ev)),
            text_pairs(ev.take(i as int)) matches Ok(acc) && acc == crate::cookie::string_pairs_view(out@),
        decreases es.len() - i,
    {
        assert(ev.take(i + 1).drop_last() =~= ev.take(i as int));
        assert(ev.take(i + 1).last() == ev[i as int]);
        match &es[i].1 {
            Json::Str(s) => {
                let ghost before = crate::cookie::string_pairs_view(out@);
                out.push((es[i].0.clone(), s.clone()));
                assert(
                    crate::cookie::string_pairs_view(out@) =~= before.push((ev[i as int].0, s@))
                );
            },
            _ => {
                proof {
                    assert(ev[i as int] == (es@[i as int].0@, es@[i as int].1.jv()));
                    assert(!(ev[i as int].1 is Str));
                    assert(text_pairs(ev.take(i + 1)) == Err::<Seq<(Seq<char>, Seq<char>)>, Seq<char>>(
                        ev[i as int].0 + " 的值必须是字符串"@,
                    ));
                    lemma_text_pairs_err(ev, i + 1);
                }
                return Err(join_str(es[i].0.as_str(), " 的值必须是字符串"));
            },
        }
        i = i + 1;
    }
    assert(ev.take(es.len() as int) =~= ev);
    Ok(Some(out))
}

/// The token and open ID of a tool call: the given ones (when not empty),
/// else the saved ones.
pub open spec fn tool_auth(
    args: Seq<(Seq<char>, JsonV)>,
    saved: Result<Seq<(Seq<char>, JsonV)>, Seq<char>>,
) -> Result<(Seq<char>, Seq<char>), Seq<char>> {
    match saved {
        Err(e) => Err(e),
        Ok(s) => {
            let t = match saved_text(args, "token"@) {
                Some(t) => Some(t),
                None => saved_text(s, "accessToken"@),
            };
            let o = match saved_text(args, "open_id"@) {
                Some(o) => Some(o),
                None => saved_text(s, "openId"@),
            };
            match (t, o) {
                (None, _) => Err("缺少 access_token，请先运行 douyin auth login"@),
                (Some(_), None) => Err("缺少 open_id，请先运行 douyin auth login"@),
                (Some(t), Some(o)) => Ok((t, o)),
            }
        },
    }
}

fn resolve_auth(args: &Vec<(String, Json)>, saved: &Result<Vec<(String, Json)>, String>) -> (r: Result<
    (String, String),
    String,
>)
    ensures
        crate::api::pair_outcome(r) == tool_auth(entries_view(args@), crate::api::saved_view(*saved)),
{
    let s = match saved {
        Ok(s) => s,
        Err(e) => return Err(e.clone()),
    };
    let token = match saved_string(args, "token") {
        Some(t) => Some(t),
        None => saved_string(s, "accessToken"),
    };
    let open_id = match saved_string(args, "open_id") {
        Some(o) => Some(o),
        None => saved_string(s, "openId"),
    };
    match (token, open_id) {
        (None, _) => Err("缺少 access_token，请先运行 douyin auth login".to_owned()),
        (Some(_), None) => Err("缺少 open_id，请先运行 douyin auth login".to_owned()),
        (Some(t), Some(o)) => Ok((t, o)),
    }
}

/// Whether every item is a string.
pub open spec fn all_texts(items: Seq<JsonV>) -> bool {
    forall|i: int| 0 <= i < items.len() ==> #[trigger] items[i] is Str
}

/// The records of a list of strings, without weights.
pub open spec fn text_records(items: Seq<JsonV>) -> Seq<(Seq<char>, Option<u64>)> {
    Seq::new(
        items.len(),
        |i: int|
            (
                match items[i] {
                    JsonV::Str(s) => s,
                    _ => Seq::empty(),
                },
                None,
            ),
    )
}

/// The member `key` of a document, null when it has none.
pub open spec fn field_or_null(v: JsonV, key: Seq<char>) -> JsonV {
    match v.get(key) {
        Some(x) => x,
        None => JsonV::Null,
    }
}

/// The key under which an offline tool reports.
pub open spec fn insight_key(name: Seq<char>) -> Seq<char> {
    if name == "hot_words"@ {
        "hot_words"@
    } else if name == "hot_memes"@ {
        "hot_memes"@
    } else {
        "demands"@
    }
}

/// What an offline text tool gives: the input count and its part of the
/// analysis of the texts.
pub open spec fn insights_result(name: Seq<char>, args: Seq<(Seq<char>, JsonV)>) -> Result<JsonV, ToolFailure> {
    match lookup(args, "texts"@) {
        Some(JsonV::Arr(items)) => if all_texts(items) {
            match count_arg(args, "top"@, 20) {
                Err(e) => Err(ToolFailure::Execution(e)),
                Ok(top) => match positive_arg(args, "min_count"@, 2) {
                    Err(e) => Err(ToolFailure::Execution(e)),
                    Ok(min_count) => {
                        let result = analysis(text_records(items), top as nat, min_count);
                        let key = insight_key(name);
                        Ok(
                            JsonV::Obj(
                                set_entry(
                                    set_entry(Seq::empty(), "input_count"@, field_or_null(result, "input_count"@)),
                                    key,
                                    field_or_null(result, key),
                                ),
                            ),
                        )
                    },
                },
            }
        } else {
            Err(ToolFailure::Execution("texts 必须是字符串数组"@))
        },
        _ => Err(ToolFailure::Execution("texts 必须是字符串数组"@)),
    }
}

/// The plain value of a tool result.
pub open spec fn tool_outcome(r: Result<Json, ToolError>) -> Result<JsonV, ToolFailure> {
    match r {
        Ok(j) => Ok(j.jv()),
        Err(ToolError::Unknown(n)) => Err(ToolFailure::Unknown(n@)),
        Err(ToolError::Execution(m)) => Err(ToolFailure::Execution(m@)),
    }
}

fn field_or_null_exec(v: &Json, key: &str) -> (r: Json)
    ensures
        r.jv() == field_or_null(v.jv(), key@),
{
    match v.get(key) {
        Some(x) => x.duplicate(),
        None => Json::Null,
    }
}

fn execute_insights_tool(name: &str, args: &Vec<(String, Json)>) -> (r: Result<Json, ToolError>)
    requires
        name@ == "hot_words"@ || name@ == "hot_memes"@ || name@ == "demand_discovery"@,
    ensures
        tool_outcome(r) == insights_result(name@, entries_view(args@)),
{
    let k = crate::text::chars_of("texts");
    let items = match crate::json::lookup_entry(args, k.as_slice()) {
        Some(Json::Arr(items)) => items,
        _ => return Err(ToolError::Execution("texts 必须是字符串数组".to_owned())),
    };
    proof {
        lemma_arr_view(*items);
    }
    let ghost iv = items_view(items@);
    let mut records: Vec<TextRecord> = Vec::new();
    let mut i: usize = 0;
    while i < items.len()
        invariant
            i <= items.len(),
            iv == items_view(items@),
            lookup(entries_view(args@), "texts"@) == Some(JsonV::Arr(iv)),
            all_texts(iv.take(i as int)),
            recs(records@) == text_records(iv.take(i as int)),
        decreases items.len() - i,
    {
        match &items[i] {
            Json::Str(s) => {
                let ghost before = recs(records@);
                assert(iv[i as int] == items@[i as int].jv());
                assert(iv[i as int] == JsonV::Str(s@));
                records.push(TextRecord::new(s.as_str(), None));
                assert(recs(records@) =~= before.push((s@, None)));
                assert(iv.take(i + 1) =~= iv.take(i as int).push(iv[i as int]));
                assert(
                    text_records(iv.take(i + 1)) =~= text_records(iv.take(i as int)).push((s@, None))
                );
                assert(all_texts(iv.take(i + 1)));
            },
            _ => {
                assert(!all_texts(iv)) by {
                    assert(iv[i as int] == items@[i as int].jv());
                    assert(!(iv[i as int] is Str));
                }
                return Err(ToolError::Execution("texts 必须是字符串数组".to_owned()));
            },
        }
        i = i + 1;
    }
    assert(iv.take(items.len() as int) =~= iv);
    let top = match non_negative_integer(args, "top", 20) {
        Err(e) => return Err(ToolError::Execution(e)),
        Ok(n) => n,
    };
    let min_count = match positive_integer(args, "min_count", 2) {
        Err(e) => return Err(ToolError::Execution(e)),
        Ok(n) => n,
    };
    let result = analyze(&records, top as usize, min_count);
    let key = if crate::json::str_eq(name, "hot_words") {
        "hot_words"
    } else if crate::json::str_eq(name, "hot_memes") {
        "hot_memes"
    } else {
        "demands"
    };
    let mut es: Vec<(String, Json)> = Vec::new();
    assert(entries_view(es@) =~= Seq::<(Seq<char>, JsonV)>::empty());
    insert_str(&mut es, "input_count", field_or_null_exec(&result, "input_count"));
    insert_str(&mut es, key, field_or_null_exec(&result, key));
    proof {
        lemma_obj_view(es);
    }
    Ok(Json::Obj(es))
}

/// What `auth_status` reports of the saved authorization.
pub open spec fn auth_status_json(s: Seq<(Seq<char>, JsonV)>) -> JsonV {
    let open_id = match saved_text(s, "openId"@) {
        Some(o) => JsonV::Str(o),
        None => JsonV::Null,
    };
    let scopes = match lookup(s, "scopes"@) {
        Some(v) => v,
        None => JsonV::Arr(Seq::empty()),
    };
    let expires = match lookup(s, "expiresIn"@) {
        Some(v) => v,
        None => JsonV::UInt(0),
    };
    JsonV::Obj(
        set_entry(
            set_entry(
                set_entry(
                    set_entry(
                        set_entry(
                            Seq::empty(),
                            "authorized"@,
                            JsonV::Bool(saved_text(s, "accessToken"@) is Some && saved_text(s, "openId"@) is Some),
                        ),
                        "client_key_saved"@,
                        JsonV::Bool(saved_text(s, "clientKey"@) is Some),
                    ),
                    "open_id"@,
                    open_id,
                ),
                "scopes"@,
                scopes,
            ),
            "expires_in"@,
            expires,
        ),
    )
}

fn auth_status(s: &Vec<(String, Json)>) -> (r: Json)
    ensures
        r.jv() == auth_status_json(entries_view(s@)),
{
    let token = saved_string(s, "accessToken");
    let open_id = saved_string(s, "openId");
    let key = saved_string(s, "clientKey");
    let authorized = token.is_some() && open_id.is_some();
    let open_id_json = match open_id {
        Some(o) => Json::Str(o),
        None => Json::Null,
    };
    let ks = crate::text::chars_of("scopes");
    let scopes = match crate::json::lookup_entry(s, ks.as_slice()) {
        Some(v) => v.duplicate(),
        None => {
            let empty: Vec<Json> = Vec::new();
            proof {
                lemma_arr_view(empty);
                assert(items_view(empty@) =~= Seq::<JsonV>::empty());
            }
            Json::Arr(empty)
        },
    };
    let ke = crate::text::chars_of("expiresIn");
    let expires = match crate::json::lookup_entry(s, ke.as_slice()) {
        Some(v) => v.duplicate(),
        None => Json::UInt(0),
    };
    let mut es: Vec<(String, Json)> = Vec::new();
    assert(entries_view(es@) =~= Seq::<(Seq<char>, JsonV)>::empty());
    insert_str(&mut es, "authorized", Json::Bool(authorized));
    insert_str(&mut es, "client_key_saved", Json::Bool(key.is_some()));
    insert_str(&mut es, "open_id", open_id_json);
    insert_str(&mut es, "scopes", scopes);
    insert_str(&mut es, "expires_in", expires);
    proof {
        lemma_obj_view(es);
    }
    Json::Obj(es)
}

/// The message kinds `im_message_send` knows: the argument each reads, the
/// key it is sent under, and the error when it is missing.
pub open spec fn message_kind(kind: Seq<char>) -> Option<(Seq<char>, Seq<char>, Seq<char>)> {
    if kind == "text"@ {
        Some(("text"@, "text"@, "message_type=text 需要 text"@))
    } else if kind == "image"@ {
        Some(("media_id"@, "media_id"@, "message_type=image 需要 media_id"@))
    } else if kind == "video"@ {
        Some(("item_id"@, "item_id"@, "message_type=video 需要 item_id"@))
    } else if kind == "card"@ {
        Some(("card_id"@, "card_id"@, "message_type=card 需要 card_id"@))
    } else {
        None
    }
}

/// The paged comment request of `comment_list` (no comment ID) or
/// `comment_replies`.
pub open spec fn comment_page(
    path: Seq<char>,
    token: Seq<char>,
    open_id: Seq<char>,
    item_id: Seq<char>,
    comment_id: Option<Seq<char>>,
    args: Seq<(Seq<char>, JsonV)>,
) -> RequestView {
    let cursor = signed_decimal(int_arg(args, "cursor"@, 0) as int);
    let count = signed_decimal(int_arg(args, "count"@, 20) as int);
    let params = match comment_id {
        Some(c) => seq![("open_id"@, open_id), ("item_id"@, item_id), ("comment_id"@, c), ("cursor"@, cursor), ("count"@, count)],
        None => seq![("open_id"@, open_id), ("item_id"@, item_id), ("cursor"@, cursor), ("count"@, count)],
    };
    authed("GET"@, path, token, params, None)
}

/// What `openapi_request` sends: the path and method it names, with the
/// given or saved token.
pub open spec fn raw_request(args: Seq<(Seq<char>, JsonV)>, s: Seq<(Seq<char>, JsonV)>) -> StepView {
    let token = match saved_text(args, "token"@) {
        Some(t) => Some(t),
        None => saved_text(s, "accessToken"@),
    };
    match token {
        None => failed("调用 OpenAPI 需要 access-token 或 client-token"@),
        Some(t) => match required_arg(args, "method"@) {
            Err(e) => failed(e),
            Ok(method) => match required_arg(args, "path"@) {
                Err(e) => failed(e),
                Ok(path) => match string_map_arg(args, "params"@) {
                    Err(e) => failed(e),
                    Ok(params) => match string_map_arg(args, "form"@) {
                        Err(e) => failed(e),
                        Ok(form) => match string_map_arg(args, "headers"@) {
                            Err(e) => failed(e),
                            Ok(headers) => StepView::Call(
                                RequestView {
                                    method,
                                    path,
                                    token: Some(t),
                                    params,
                                    json_body: lookup(args, "json_body"@),
                                    form,
                                    headers,
                                    auth_required: true,
                                },
                            ),
                        },
                    },
                },
            },
        },
    }
}

/// What a tool that reaches the platform does with its arguments.
pub open spec fn online_step(
    name: Seq<char>,
    args: Seq<(Seq<char>, JsonV)>,
    saved: Result<Seq<(Seq<char>, JsonV)>, Seq<char>>,
) -> StepView {
    if name == "userinfo"@ {
        match tool_auth(args, saved) {
            Err(e) => failed(e),
            Ok((t, o)) => StepView::Call(authed("GET"@, "/oauth/userinfo/"@, t, seq![("open_id"@, o)], None)),
        }
    } else if name == "comment_list"@ {
        match tool_auth(args, saved) {
            Err(e) => failed(e),
            Ok((t, o)) => match required_arg(args, "item_id"@) {
                Err(e) => failed(e),
                Ok(item) => StepView::Call(comment_page("/item/comment/list/"@, t, o, item, None, args)),
            },
        }
    } else if name == "comment_replies"@ {
        match tool_auth(args, saved) {
            Err(e) => failed(e),
            Ok((t, o)) => match required_arg(args, "item_id"@) {
                Err(e) => failed(e),
                Ok(item) => match required_arg(args, "comment_id"@) {
                    Err(e) => failed(e),
                    Ok(c) => StepView::Call(comment_page("/item/comment/reply/list/"@, t, o, item, Some(c), args)),
                },
            },
        }
    } else if name == "comment_reply"@ {
        match tool_auth(args, saved) {
            Err(e) => failed(e),
            Ok((t, o)) => match required_arg(args, "item_id"@) {
                Err(e) => failed(e),
                Ok(item) => match required_arg(args, "content"@) {
                    Err(e) => failed(e),
                    Ok(content) => StepView::Call(
                        authed(
                            "POST"@,
                            "/item/comment/reply/"@,
                            t,
                            seq![("open_id"@, o)],
                            Some(crate::api::reply_body(item, content, saved_text(args, "comment_id"@))),
                        ),
                    ),
                },
            },
        }
    } else if name == "im_message_send"@ {
        match tool_auth(args, saved) {
            Err(e) => failed(e),
            Ok((t, o)) => {
                let kind = match saved_text(args, "message_type"@) {
                    Some(k) => k,
                    None => "text"@,
                };
                match message_kind(kind) {
                    None => failed("不支持的私信类型: "@ + kind),
                    Some((key, source, error)) => match saved_text(args, source) {
                        None => failed(error),
                        Some(value) => match required_arg(args, "to_user_id"@) {
                            Err(e) => failed(e),
                            Ok(to) => StepView::Call(
                                authed(
                                    "POST"@,
                                    "/enterprise/im/message/send/"@,
                                    t,
                                    seq![("open_id"@, o)],
                                    Some(
                                        im_body(
                                            to,
                                            kind,
                                            JsonV::Obj(set_entry(Seq::empty(), key, JsonV::Str(value))),
                                            saved_text(args, "persona_id"@),
                                            saved_text(args, "client_msg_id"@),
                                        ),
                                    ),
                                ),
                            ),
                        },
                    },
                }
            },
        }
    } else if name == "openapi_request"@ {
        match saved {
            Err(e) => failed(e),
            Ok(s) => raw_request(args, s),
        }
    } else {
        StepView::Done(Err(ToolFailure::Unknown(name)))
    }
}

/// What a tool call does: the offline tools and `auth_status` answer at once;
/// the others need the platform client and come to a request.
pub open spec fn tool_step(
    name: Seq<char>,
    args: Seq<(Seq<char>, JsonV)>,
    saved: Result<Seq<(Seq<char>, JsonV)>, Seq<char>>,
) -> StepView {
    if name == "hot_words"@ || name == "hot_memes"@ || name == "demand_discovery"@ {
        StepView::Done(insights_result(name, args))
    } else if name == "auth_status"@ {
        match saved {
            Err(e) => failed(e),
            Ok(s) => StepView::Done(Ok(auth_status_json(s))),
        }
    } else {
        match base_client(base_url()) {
            Err(e) => failed(e),
            Ok(_) => online_step(name, args, saved),
        }
    }
}

fn comment_page_request(
    path: &str,
    token: String,
    open_id: String,
    item_id: String,
    comment_id: Option<String>,
    args: &Vec<(String, Json)>,
) -> (r: RequestSpec)
    ensures
        r.view() == comment_page(path@, token@, open_id@, item_id@, opt_str_view(comment_id), entries_view(args@)),
{
    let cursor = string_of(signed_decimal_chars(integer(args, "cursor", 0)).as_slice());
    let count = string_of(signed_decimal_chars(integer(args, "count", 20)).as_slice());
    let ghost cid = opt_str_view(comment_id);
    let ghost oid = open_id@;
    let ghost iid = item_id@;
    let mut params: Vec<(String, String)> = Vec::new();
    params.push(("open_id".to_owned(), open_id));
    params.push(("item_id".to_owned(), item_id));
    match comment_id {
        Some(c) => params.push(("comment_id".to_owned(), c)),
        None => {},
    }
    params.push(("cursor".to_owned(), cursor));
    params.push(("count".to_owned(), count));
    let ghost pv = crate::cookie::string_pairs_view(params@);
    proof {
        let cv = signed_decimal(int_arg(entries_view(args@), "cursor"@, 0) as int);
        let nv = signed_decimal(int_arg(entries_view(args@), "count"@, 20) as int);
        match cid {
            Some(c) => assert(pv =~= seq![
                ("open_id"@, oid),
                ("item_id"@, iid),
                ("comment_id"@, c),
                ("cursor"@, cv),
                ("count"@, nv),
            ]),
            None => assert(pv =~= seq![("open_id"@, oid), ("item_id"@, iid), ("cursor"@, cv), ("count"@, nv)]),
        }
    }
    crate::api::authed_spec("GET", path, token, params, None)
}

fn message_kind_exec(kind: &str) -> (r: Option<(&'static str, &'static str, &'static str)>)
    ensures
        r matches Some(t) ==> message_kind(kind@) == Some((t.0@, t.1@, t.2@)),
        r is None ==> message_kind(kind@) is None,
{
    if crate::json::str_eq(kind, "text") {
        Some(("text", "text", "message_type=text 需要 text"))
    } else if crate::json::str_eq(kind, "image") {
        Some(("media_id", "media_id", "message_type=image 需要 media_id"))
    } else if crate::json::str_eq(kind, "video") {
        Some(("item_id", "item_id", "message_type=video 需要 item_id"))
    } else if crate::json::str_eq(kind, "card") {
        Some(("card_id", "card_id", "message_type=card 需要 card_id"))
    } else {
        None
    }
}

fn im_message_step(args: &Vec<(String, Json)>, t: String, o: String) -> (r: ToolStep)
    ensures
        r.step() == ({
            let kind = match saved_text(entries_view(args@), "message_type"@) {
                Some(k) => k,
                None => "text"@,
            };
            let a = entries_view(args@);
            match message_kind(kind) {
                None => failed("不支持的私信类型: "@ + kind),
                Some((key, source, error)) => match saved_text(a, source) {
                    None => failed(error),
                    Some(value) => match required_arg(a, "to_user_id"@) {
                        Err(e) => failed(e),
                        Ok(to) => StepView::Call(
                            authed(
                                "POST"@,
                                "/enterprise/im/message/send/"@,
                                t@,
                                seq![("open_id"@, o@)],
                                Some(
                                    im_body(
                                        to,
                                        kind,
                                        JsonV::Obj(set_entry(Seq::empty(), key, JsonV::Str(value))),
                                        saved_text(a, "persona_id"@),
                                        saved_text(a, "client_msg_id"@),
                                    ),
                                ),
                            ),
                        ),
                    },
                },
            }
        }),
{
    let kind = match saved_string(args, "message_type") {
        Some(k) => k,
        None => "text".to_owned(),
    };
    let (key, source, error) = match message_kind_exec(kind.as_str()) {
        None => return fail(join_str("不支持的私信类型: ", kind.as_str())),
        Some(t) => t,
    };
    let value = match saved_string(args, source) {
        None => return fail(error.to_owned()),
        Some(v) => v,
    };
    let to = match required_string(args, "to_user_id") {
        Err(e) => return fail(e),
        Ok(to) => to,
    };
    let mut content: Vec<(String, Json)> = Vec::new();
    assert(entries_view(content@) =~= Seq::<(Seq<char>, JsonV)>::empty());
    insert_str(&mut content, key, Json::Str(value));
    proof {
        lemma_obj_view(content);
    }
    let content = Json::Obj(content);
    let persona = saved_string(args, "persona_id");
    let msg_id = saved_string(args, "client_msg_id");
    let persona_ref: Option<&str> = match &persona {
        Some(p) => Some(p.as_str()),
        None => None,
    };
    let msg_ref: Option<&str> = match &msg_id {
        Some(p) => Some(p.as_str()),
        None => None,
    };
    let body = im_message_body(to.as_str(), kind.as_str(), &content, persona_ref, msg_ref);
    ToolStep::Call(
        crate::api::authed_spec("POST", "/enterprise/im/message/send/", t, crate::api::open_id_params(o), Some(body)),
    )
}

fn openapi_request_step(args: &Vec<(String, Json)>, s: &Vec<(String, Json)>) -> (r: ToolStep)
    ensures
        r.step() == raw_request(entries_view(args@), entries_view(s@)),
{
    let token = match saved_string(args, "token") {
        Some(t) => t,
        None => match saved_string(s, "accessToken") {
            Some(t) => t,
            None => return fail("调用 OpenAPI 需要 access-token 或 client-token".to_owned()),
        },
    };
    let method = match required_string(args, "method") {
        Err(e) => return fail(e),
        Ok(m) => m,
    };
    let path = match required_string(args, "path") {
        Err(e) => return fail(e),
        Ok(p) => p,
    };
    let params = match string_map(args, "params") {
        Err(e) => return fail(e),
        Ok(p) => p,
    };
    let kj = crate::text::chars_of("json_body");
    let json_body = match crate::json::lookup_entry(args, kj.as_slice()) {
        Some(v) => Some(v.duplicate()),
        None => None,
    };
    let form = match string_map(args, "form") {
        Err(e) => return fail(e),
        Ok(p) => p,
    };
    let headers = match string_map(args, "headers") {
        Err(e) => return fail(e),
        Ok(p) => p,
    };
    ToolStep::Call(
        RequestSpec { method, path, token: Some(token), params, json_body, form, headers, auth_required: true },
    )
}

fn online(name: &str, args: &Vec<(String, Json)>, saved: &Result<Vec<(String, Json)>, String>) -> (r: ToolStep)
    ensures
        r.step() == online_step(name@, entries_view(args@), crate::api::saved_view(*saved)),
{
    if crate::json::str_eq(name, "userinfo") {
        return match resolve_auth(args, saved) {
            Err(e) => fail(e),
            Ok((t, o)) => ToolStep::Call(
                crate::api::authed_spec("GET", "/oauth/userinfo/", t, crate::api::open_id_params(o), None),
            ),
        };
    }
    if crate::json::str_eq(name, "comment_list") {
        return match resolve_auth(args, saved) {
            Err(e) => fail(e),
            Ok((t, o)) => match required_string(args, "item_id") {
                Err(e) => fail(e),
                Ok(item) => ToolStep::Call(comment_page_request("/item/comment/list/", t, o, item, None, args)),
            },
        };
    }
    if crate::json::str_eq(name, "comment_replies") {
        return match resolve_auth(args, saved) {
            Err(e) => fail(e),
            Ok((t, o)) => match required_string(args, "item_id") {
                Err(e) => fail(e),
                Ok(item) => match required_string(args, "comment_id") {
                    Err(e) => fail(e),
                    Ok(c) => ToolStep::Call(comment_page_request("/item/comment/reply/list/", t, o, item, Some(c), args)),
                },
            },
        };
    }
    if crate::json::str_eq(name, "comment_reply") {
        return match resolve_auth(args, saved) {
            Err(e) => fail(e),
            Ok((t, o)) => match required_string(args, "item_id") {
                Err(e) => fail(e),
                Ok(item) => match required_string(args, "content") {
                    Err(e) => fail(e),
                    Ok(content) => {
                        let comment_id = saved_string(args, "comment_id");
                        let body = crate::api::reply_body_exec(&item, &content, &comment_id);
                        ToolStep::Call(
                            crate::api::authed_spec(
                                "POST",
                                "/item/comment/reply/",
                                t,
                                crate::api::open_id_params(o),
                                Some(body),
                            ),
                        )
                    },
                },
            },
        };
    }
    if crate::json::str_eq(name, "im_message_send") {
        return match resolve_auth(args, saved) {
            Err(e) => fail(e),
            Ok((t, o)) => im_message_step(args, t, o),
        };
    }
    if crate::json::str_eq(name, "openapi_request") {
        return match saved {
            Err(e) => fail(e.clone()),
            Ok(s) => openapi_request_step(args, s),
        };
    }
    ToolStep::Done(Err(ToolError::Unknown(name.to_owned())))
}

/// What a tool call does; see [`tool_step`].
pub fn execute_tool(name: &str, args: &Vec<(String, Json)>, saved: &Result<Vec<(String, Json)>, String>) -> (r:
    ToolStep)
    ensures
        r.step() == tool_step(name@, entries_view(args@), crate::api::saved_view(*saved)),
{
    if crate::json::str_eq(name, "hot_words") || crate::json::str_eq(name, "hot_memes") || crate::json::str_eq(
        name,
        "demand_discovery",
    ) {
        return ToolStep::Done(execute_insights_tool(name, args));
    }
    if crate::json::str_eq(name, "auth_status") {
        return match saved {
            Err(e) => fail(e.clone()),
            Ok(s) => ToolStep::Done(Ok(auth_status(s))),
        };
    }
    match OpenApiClient::new() {
        Err(e) => fail(e),
        Ok(_) => online(name, args, saved),
    }
}

/// The answer to a message, before the platform is reached.
pub enum McpReply {
    /// A notification: nothing is answered.
    Silent,
    /// The answer.
    Answer(Json),
    /// A tool call that needs the platform: send `request`, then answer with
    /// [`call_answer`] of `id` and the reply.
    Call { id: Json, request: RequestSpec },
    /// The replies to the messages of a batch, in order.
    Batch(Vec<McpReply>),
}

/// The plain value of an [`McpReply`].
pub enum ReplyView {
    Silent,
    Answer(JsonV),
    Call(JsonV, RequestView),
    Batch(Seq<ReplyView>),
}

impl McpReply {
    /// The plain value of the reply.
    pub open spec fn rv(self) -> ReplyView
        decreases self,
    {
        match self {
            McpReply::Silent => ReplyView::Silent,
            McpReply::Answer(j) => ReplyView::Answer(j.jv()),
            McpReply::Call { id, request } => ReplyView::Call(id.jv(), request.view()),
            McpReply::Batch(v) => ReplyView::Batch(
                Seq::new(
                    v@.len(),
                    |i: int|
                        if 0 <= i < v@.len() {
                            proof {
                                assert(decreases_to!(v => v@));
                                assert(decreases_to!(v@ => v@[i]));
                            }
                            v@[i].rv()
                        } else {
                            ReplyView::Silent
                        },
                ),
            ),
        }
    }
}

/// The answer to `tools/call`: the tool's result, its failure, a protocol
/// error for an unknown tool, or the request it needs.
pub open spec fn call_reply(
    id: JsonV,
    request: JsonV,
    saved: Result<Seq<(Seq<char>, JsonV)>, Seq<char>>,
) -> ReplyView {
    match at2(request, "params"@, "name"@) {
        Some(JsonV::Str(name)) => {
            let args = match at2(request, "params"@, "arguments"@) {
                Some(JsonV::Obj(es)) => es,
                _ => Seq::empty(),
            };
            match tool_step(name, args, saved) {
                StepView::Done(Ok(v)) => ReplyView::Answer(rpc_ok(id, tool_success(v))),
                StepView::Done(Err(ToolFailure::Unknown(n))) => ReplyView::Answer(
                    rpc_error(id, -32602i64, "Unknown tool: "@ + n),
                ),
                StepView::Done(Err(ToolFailure::Execution(m))) => ReplyView::Answer(rpc_ok(id, tool_failure(m))),
                StepView::Call(r) => ReplyView::Call(id, r),
            }
        },
        _ => ReplyView::Answer(rpc_ok(id, tool_failure("缺少工具名称"@))),
    }
}

/// The answer to a single message: none without an ID; else by its method.
pub open spec fn message_reply(
    request: JsonV,
    version: Seq<char>,
    saved: Result<Seq<(Seq<char>, JsonV)>, Seq<char>>,
) -> ReplyView {
    match request.get("id"@) {
        None => ReplyView::Silent,
        Some(id) => match request.get("method"@) {
            Some(JsonV::Str(m)) => if m == "initialize"@ {
                ReplyView::Answer(rpc_ok(id, initialize_result(request, version)))
            } else if m == "ping"@ {
                ReplyView::Answer(rpc_ok(id, JsonV::Obj(Seq::empty())))
            } else if m == "tools/list"@ {
                ReplyView::Answer(rpc_ok(id, JsonV::Obj(set_entry(Seq::empty(), "tools"@, JsonV::Arr(tool_list())))))
            } else if m == "tools/call"@ {
                call_reply(id, request, saved)
            } else {
                ReplyView::Answer(rpc_error(id, -32601i64, "Method not found: "@ + m))
            },
            _ => ReplyView::Answer(rpc_error(id, -32600i64, "Invalid Request: missing method"@)),
        },
    }
}

/// The answer to a message or a batch of them.
pub open spec fn reply_to(
    request: JsonV,
    version: Seq<char>,
    saved: Result<Seq<(Seq<char>, JsonV)>, Seq<char>>,
) -> ReplyView
    decreases request,
{
    match request {
        JsonV::Arr(items) => ReplyView::Batch(
            Seq::new(
                items.len(),
                |i: int|
                    if 0 <= i < items.len() {
                        proof {
                            assert(decreases_to!(items => items[i]));
                        }
                        reply_to(items[i], version, saved)
                    } else {
                        ReplyView::Silent
                    },
            ),
        ),
        _ => message_reply(request, version, saved),
    }
}

fn call_tool(id: Json, request: &Json, saved: &Result<Vec<(String, Json)>, String>) -> (r: McpReply)
    ensures
        r.rv() == call_reply(id.jv(), request.jv(), crate::api::saved_view(*saved)),
{
    let name = match pointer2(request, "params", "name") {
        Some(Json::Str(n)) => n,
        _ => return McpReply::Answer(rpc_ok_json(id, tool_failure_json("缺少工具名称".to_owned()))),
    };
    let args: Vec<(String, Json)> = match pointer2(request, "params", "arguments") {
        Some(Json::Obj(es)) => {
            proof {
                lemma_obj_view(*es);
            }
            crate::json::copy_entries(es)
        },
        _ => {
            let none: Vec<(String, Json)> = Vec::new();
            assert(entries_view(none@) =~= Seq::<(Seq<char>, JsonV)>::empty());
            none
        },
    };
    match execute_tool(name.as_str(), &args, saved) {
        ToolStep::Done(Ok(v)) => McpReply::Answer(rpc_ok_json(id, tool_success_json(v))),
        ToolStep::Done(Err(ToolError::Unknown(n))) => McpReply::Answer(
            rpc_error_json(id, -32602, join_str("Unknown tool: ", n.as_str())),
        ),
        ToolStep::Done(Err(ToolError::Execution(m))) => McpReply::Answer(rpc_ok_json(id, tool_failure_json(m))),
        ToolStep::Call(request) => McpReply::Call { id, request },
    }
}

/// The answer to a message or a batch of them; see [`reply_to`]. `version`
/// is the server's own version; `saved` the saved open-platform settings, or
/// why they could not be read.
#[verifier::loop_isolation(false)]
pub fn handle_message(request: &Json, version: &str, saved: &Result<Vec<(String, Json)>, String>) -> (r: McpReply)
    ensures
        r.rv() == reply_to(request.jv(), version@, crate::api::saved_view(*saved)),
    decreases request,
{
    if let Json::Arr(items) = request {
        proof {
            lemma_arr_view(*items);
        }
        let ghost iv = items_view(items@);
        let mut out: Vec<McpReply> = Vec::new();
        let mut i: usize = 0;
        while i < items.len()
            invariant
                i <= items.len(),
                iv == items_view(items@),
                request.jv() == JsonV::Arr(iv),
                out@.len() == i,
                forall|j: int| 0 <= j < i ==> #[trigger] out@[j].rv() == reply_to(iv[j], version@, crate::api::saved_view(*saved)),
            decreases items.len() - i,
        {
            proof {
                assert(decreases_to!(request => items));
                assert(decreases_to!(items => items@));
                assert(decreases_to!(items@ => items@[i as int]));
            }
            let reply = handle_message(&items[i], version, saved);
            out.push(reply);
            i = i + 1;
        }
        let r = McpReply::Batch(out);
        proof {
            let sv = crate::api::saved_view(*saved);
            let target = reply_to(request.jv(), version@, sv);
            if let ReplyView::Batch(rs) = r.rv() {
                if let ReplyView::Batch(ts) = target {
                    assert forall|j: int| 0 <= j < iv.len() implies rs[j] == ts[j] by {
                        assert(rs[j] == out@[j].rv());
                        assert(ts[j] == reply_to(iv[j], version@, sv));
                    }
                    assert(rs =~= ts);
                }
            }
        }
        return r;
    }
    let id = match request.get("id") {
        None => return McpReply::Silent,
        Some(id) => id.duplicate(),
    };
    let method = match request.get("method") {
        Some(Json::Str(m)) => m,
        _ => return McpReply::Answer(rpc_error_json(id, -32600, "Invalid Request: missing method".to_owned())),
    };
    let m = method.as_str();
    if crate::json::str_eq(m, "initialize") {
        McpReply::Answer(rpc_ok_json(id, initialize(request, version)))
    } else if crate::json::str_eq(m, "ping") {
        let empty: Vec<(String, Json)> = Vec::new();
        proof {
            lemma_obj_view(empty);
            assert(entries_view(empty@) =~= Seq::<(Seq<char>, JsonV)>::empty());
        }
        McpReply::Answer(rpc_ok_json(id, Json::Obj(empty)))
    } else if crate::json::str_eq(m, "tools/list") {
        let list = tools();
        proof {
            lemma_arr_view(list);
        }
        let mut es: Vec<(String, Json)> = Vec::new();
        assert(entries_view(es@) =~= Seq::<(Seq<char>, JsonV)>::empty());
        insert_str(&mut es, "tools", Json::Arr(list));
        proof {
            lemma_obj_view(es);
        }
        McpReply::Answer(rpc_ok_json(id, Json::Obj(es)))
    } else if crate::json::str_eq(m, "tools/call") {
        call_tool(id, request, saved)
    } else {
        McpReply::Answer(rpc_error_json(id, -32601, join_str("Method not found: ", m)))
    }
}

/// The answer to a tool call once its platform request came back.
pub open spec fn call_result(id: JsonV, reply: Result<JsonV, Seq<char>>) -> JsonV {
    match reply {
        Ok(v) => rpc_ok(id, tool_success(v)),
        Err(m) => rpc_ok(id, tool_failure(m)),
    }
}

/// The answer to a tool call once its platform request came back; see
/// [`call_result`].
pub fn call_answer(id: Json, reply: Result<Json, String>) -> (r: Json)
    ensures
        r.jv() == call_result(id.jv(), crate::openapi::json_outcome(reply)),
{
    match reply {
        Ok(v) => rpc_ok_json(id, tool_success_json(v)),
        Err(m) => rpc_ok_json(id, tool_failure_json(m)),
    }
}

/// The answers that are there, in order.
pub open spec fn present(answers: Seq<Option<JsonV>>) -> Seq<JsonV>
    decreases answers.len(),
{
    if answers.len() == 0 {
        Seq::empty()
    } else {
        match answers.last() {
            Some(a) => present(answers.drop_last()).push(a),
            None => present(answers.drop_last()),
        }
    }
}

/// The answer to a batch: the answers there are, none when there are none.
pub open spec fn batch_result(answers: Seq<Option<JsonV>>) -> Option<JsonV> {
    if present(answers).len() == 0 {
        None
    } else {
        Some(JsonV::Arr(present(answers)))
    }
}

/// The plain values of optional answers.
pub open spec fn answers_view(v: Seq<Option<Json>>) -> Seq<Option<JsonV>> {
    Seq::new(v.len(), |i: int| opt_json(v[i]))
}

/// The answer to a batch; see [`batch_result`].
pub fn batch_answer(answers: Vec<Option<Json>>) -> (r: Option<Json>)
    ensures
        opt_json(r) == batch_result(answers_view(answers@)),
{
    let ghost av = answers_view(answers@);
    let mut out: Vec<Json> = Vec::new();
    let mut i: usize = 0;
    assert(av.take(0) =~= Seq::<Option<JsonV>>::empty());
    while i < answers.len()
        invariant
            i <= answers.len(),
            av == answers_view(answers@),
            items_view(out@) == present(av.take(i as int)),
        decreases answers.len() - i,
    {
        assert(av.take(i + 1).drop_last() =~= av.take(i as int));
        assert(av.take(i + 1).last() == av[i as int]);
        match &answers[i] {
            Some(j) => {
                let ghost ob = items_view(out@);
                out.push(j.duplicate());
                assert(items_view(out@) =~= ob.push(j.jv()));
            },
            None => {},
        }
        i = i + 1;
    }
    assert(av.take(answers.len() as int) =~= av);
    if out.len() == 0 {
        None
    } else {
        proof {
            lemma_arr_view(out);
        }
        Some(Json::Arr(out))
    }
}

} // verus!
