//! Offline text-frequency insights: the texts (and their weights) found in
//! local JSON, JSONL or plain-text input.
use vstd::prelude::*;
use crate::json::{items_view, json_doc, json_text, key_less, key_lt, lookup, parse_json_doc, same_chars, Json, JsonV};
use crate::text::{
    chars_of, concat, parse_u64, parse_u64_spec, split_char, split_on_char, starts_with,
    string_of, trim, trim_chars,
};

verus! {

broadcast use vstd::string::group_string_axioms;

/// One input text and its optional interaction-derived weight.
#[derive(Clone, Debug, PartialEq, Eq)]
pub struct TextRecord {
    pub text: String,
    pub weight: Option<u64>,
}

impl TextRecord {
    /// A record of `text` with an optional weight.
    pub fn new(text: &str, weight: Option<u64>) -> (r: TextRecord)
        ensures
            r.text@ == text@,
            r.weight == weight,
    {
        TextRecord { text: text.to_owned(), weight }
    }
}

/// The plain values of records.
pub open spec fn recs(v: Seq<TextRecord>) -> Seq<(Seq<char>, Option<u64>)> {
    Seq::new(v.len(), |i: int| (v[i].text@, v[i].weight))
}

/// The record of a text with a weight: its trimmed text, when not empty.
pub open spec fn pushed(text: Seq<char>, w: u64) -> Seq<(Seq<char>, Option<u64>)> {
    if trim(text).len() > 0 {
        seq![(trim(text), Some(w))]
    } else {
        Seq::empty()
    }
}

/// The record of an optional string value.
pub open spec fn pushed_str(v: Option<JsonV>, w: u64) -> Seq<(Seq<char>, Option<u64>)> {
    match v {
        Some(JsonV::Str(s)) => pushed(s, w),
        _ => Seq::empty(),
    }
}

/// A count as an unsigned number: an integer that is not negative, or the
/// decimal text of one.
pub open spec fn numeric_value(v: JsonV) -> Option<u64> {
    match v {
        JsonV::UInt(n) => Some(n),
        JsonV::NegInt(n) => if n >= 0 {
            Some(n as u64)
        } else {
            None
        },
        JsonV::Str(s) => parse_u64_spec(s),
        _ => None,
    }
}

/// The keys that give an object its weight, in order of preference.
pub open spec fn weight_keys() -> Seq<Seq<char>> {
    seq!["weight"@, "quality_score"@, "digg_count"@, "score"@]
}

/// The first count among `keys` of an object.
pub open spec fn first_count(es: Seq<(Seq<char>, JsonV)>, keys: Seq<Seq<char>>) -> Option<u64>
    decreases keys.len(),
{
    if keys.len() == 0 {
        None
    } else {
        match lookup(es, keys[0]) {
            Some(v) => match numeric_value(v) {
                Some(n) => Some(n),
                None => first_count(es, keys.drop_first()),
            },
            None => first_count(es, keys.drop_first()),
        }
    }
}

/// `n + 1`, saturating.
pub open spec fn plus_one(n: u64) -> u64 {
    if n == u64::MAX {
        n
    } else {
        (n + 1) as u64
    }
}

/// The weight an object gives itself: one more than its first count.
pub open spec fn own_weight(es: Seq<(Seq<char>, JsonV)>) -> Option<u64> {
    match first_count(es, weight_keys()) {
        Some(n) => Some(plus_one(n)),
        None => None,
    }
}

/// The weight of the texts of an object: its own, else its metadata's, else
/// the inherited one; at least 1.
pub open spec fn object_weight(es: Seq<(Seq<char>, JsonV)>, inherited: u64) -> u64 {
    let meta = match lookup(es, "metadata"@) {
        Some(JsonV::Obj(m)) => own_weight(m),
        _ => None,
    };
    let w = match own_weight(es) {
        Some(w) => w,
        None => match meta {
            Some(w) => w,
            None => inherited,
        },
    };
    if w < 1 {
        1
    } else {
        w
    }
}

/// The records of the `content` of chat messages.
pub open spec fn message_records(msgs: Seq<JsonV>, w: u64) -> Seq<(Seq<char>, Option<u64>)>
    decreases msgs.len(),
{
    if msgs.len() == 0 {
        Seq::empty()
    } else {
        pushed_str(msgs[0].get("content"@), w) + message_records(msgs.drop_first(), w)
    }
}

/// The records of a `tag` value: strings, arrays of tags, or the text, name,
/// title and tag name of an object.
pub open spec fn tag_records(v: JsonV, w: u64) -> Seq<(Seq<char>, Option<u64>)>
    decreases v,
{
    match v {
        JsonV::Str(s) => pushed(s, w),
        JsonV::Arr(items) => tag_item_records(items, w),
        JsonV::Obj(es) => pushed_str(lookup(es, "text"@), w) + pushed_str(lookup(es, "name"@), w)
            + pushed_str(lookup(es, "title"@), w) + pushed_str(lookup(es, "tag_name"@), w),
        _ => Seq::empty(),
    }
}

/// The records of the tags of an array.
pub open spec fn tag_item_records(items: Seq<JsonV>, w: u64) -> Seq<(Seq<char>, Option<u64>)>
    decreases items,
{
    if items.len() == 0 {
        Seq::empty()
    } else {
        tag_records(items[0], w) + tag_item_records(items.drop_first(), w)
    }
}

/// A topic name with its leading `#`.
pub open spec fn topic(name: Seq<char>) -> Seq<char> {
    if starts_with(name, "#"@) {
        name
    } else {
        "#"@ + name
    }
}

/// The records of a `text_extra` value: the topic of each tag name.
pub open spec fn extra_records(v: JsonV, w: u64) -> Seq<(Seq<char>, Option<u64>)>
    decreases v,
{
    match v {
        JsonV::Arr(items) => extra_item_records(items, w),
        JsonV::Obj(es) => match lookup(es, "tag_name"@) {
            Some(JsonV::Str(name)) => if trim(name).len() > 0 {
                pushed(topic(trim(name)), w)
            } else {
                Seq::empty()
            },
            _ => Seq::empty(),
        },
        _ => Seq::empty(),
    }
}

/// The records of the `text_extra` items of an array.
pub open spec fn extra_item_records(items: Seq<JsonV>, w: u64) -> Seq<(Seq<char>, Option<u64>)>
    decreases items,
{
    if items.len() == 0 {
        Seq::empty()
    } else {
        extra_records(items[0], w) + extra_item_records(items.drop_first(), w)
    }
}

/// The records of the text, description and content of an object.
pub open spec fn field_records(es: Seq<(Seq<char>, JsonV)>, w: u64) -> Seq<(Seq<char>, Option<u64>)> {
    pushed_str(lookup(es, "text"@), w) + pushed_str(lookup(es, "desc"@), w) + pushed_str(
        lookup(es, "content"@),
        w,
    )
}

/// The records of the tags and topics of an object.
pub open spec fn label_records(es: Seq<(Seq<char>, JsonV)>, w: u64) -> Seq<(Seq<char>, Option<u64>)> {
    (match lookup(es, "tag"@) {
        Some(t) => tag_records(t, w),
        None => Seq::empty(),
    }) + match lookup(es, "text_extra"@) {
        Some(t) => extra_records(t, w),
        None => Seq::empty(),
    }
}

/// The records an object holds itself: the contents of its messages, or else
/// its text, description and content, its tags and its topics.
pub open spec fn own_records(es: Seq<(Seq<char>, JsonV)>, w: u64) -> Seq<(Seq<char>, Option<u64>)> {
    match lookup(es, "messages"@) {
        Some(JsonV::Arr(msgs)) => message_records(msgs, w),
        _ => field_records(es, w) + label_records(es, w),
    }
}

/// Keys whose values an object reads itself rather than as nested records.
pub open spec fn read_key(k: Seq<char>) -> bool {
    k == "messages"@ || k == "text"@ || k == "desc"@ || k == "content"@ || k == "tag"@ || k
        == "text_extra"@ || k == "weight"@ || k == "digg_count"@ || k == "quality_score"@ || k
        == "score"@
}

/// The records of a JSON document, texts weighted by the nearest object that
/// gives a weight (else `w`).
pub open spec fn records_of(v: JsonV, w: u64) -> Seq<(Seq<char>, Option<u64>)>
    decreases v,
{
    match v {
        JsonV::Str(s) => pushed(s, w),
        JsonV::Arr(items) => item_records(items, w),
        JsonV::Obj(es) => own_records(es, object_weight(es, w)) + nested_records(
            es,
            object_weight(es, w),
        ),
        _ => Seq::empty(),
    }
}

/// The records of the items of an array.
pub open spec fn item_records(items: Seq<JsonV>, w: u64) -> Seq<(Seq<char>, Option<u64>)>
    decreases items,
{
    if items.len() == 0 {
        Seq::empty()
    } else {
        records_of(items[0], w) + item_records(items.drop_first(), w)
    }
}

/// The records of the arrays and objects nested under other keys, in key order.
pub open spec fn nested_records(es: Seq<(Seq<char>, JsonV)>, w: u64) -> Seq<(Seq<char>, Option<u64>)>
    decreases es,
{
    if es.len() == 0 {
        Seq::empty()
    } else {
        (if read_key(es[0].0) {
            Seq::empty()
        } else {
            match es[0].1 {
                JsonV::Arr(_) => records_of(es[0].1, w),
                JsonV::Obj(_) => records_of(es[0].1, w),
                _ => Seq::empty(),
            }
        }) + nested_records(es.drop_first(), w)
    }
}

/// Appends the record of `text` when its trimmed form is not empty.
pub fn push_record(records: &mut Vec<TextRecord>, text: &str, weight: u64)
    ensures
        recs(final(records)@) == recs(old(records)@) + pushed(text@, weight),
{
    let t = trim_chars(chars_of(text).as_slice());
    let ghost before = records@;
    if t.len() > 0 {
        records.push(TextRecord { text: string_of(t.as_slice()), weight: Some(weight) });
        assert(recs(records@) =~= recs(before) + pushed(text@, weight));
    } else {
        assert(recs(records@) =~= recs(before) + pushed(text@, weight));
    }
}

fn push_str(records: &mut Vec<TextRecord>, v: Option<&Json>, w: u64)
    ensures
        recs(final(records)@) == recs(old(records)@) + pushed_str(
            match v {
                Some(x) => Some(x.jv()),
                None => None,
            },
            w,
        ),
{
    match v {
        Some(Json::Str(s)) => push_record(records, s.as_str(), w),
        _ => {
            assert(recs(records@) =~= recs(records@) + Seq::<(Seq<char>, Option<u64>)>::empty());
        },
    }
}

/// Executable form of [`numeric_value`].
pub fn numeric_value_exec(v: &Json) -> (r: Option<u64>)
    ensures
        r == numeric_value(v.jv()),
{
    match v {
        Json::UInt(n) => Some(*n),
        Json::NegInt(n) => if *n >= 0 {
            Some(*n as u64)
        } else {
            None
        },
        Json::Str(s) => parse_u64(chars_of(s.as_str()).as_slice()),
        _ => None,
    }
}

fn own_weight_exec(obj: &Json) -> (r: Option<u64>)
    requires
        obj.jv() is Obj,
    ensures
        r == own_weight(obj.jv()->Obj_0),
{
    let ghost es = obj.jv()->Obj_0;
    let keys = vec!["weight", "quality_score", "digg_count", "score"];
    let ghost kv = weight_keys();
    assert(forall|j: int| 0 <= j < 4 ==> (#[trigger] keys@[j])@ == kv[j]);
    let mut i: usize = 0;
    assert(kv.skip(0) =~= kv);
    while i < 4
        invariant
            i <= 4,
            keys@.len() == 4,
            forall|j: int| 0 <= j < 4 ==> (#[trigger] keys@[j])@ == kv[j],
            kv == weight_keys(),
            obj.jv() == JsonV::Obj(es),
            first_count(es, kv) == first_count(es, kv.skip(i as int)),
        decreases 4 - i,
    {
        assert(kv.skip(i as int)[0] == keys@[i as int]@);
        assert(kv.skip(i as int).drop_first() =~= kv.skip(i + 1));
        match obj.get(keys[i]) {
            Some(v) => match numeric_value_exec(v) {
                Some(n) => {
                    return Some(if n == u64::MAX {
                        n
                    } else {
                        n + 1
                    });
                },
                None => {},
            },
            None => {},
        }
        i = i + 1;
    }
    None
}

fn object_weight_exec(obj: &Json, inherited: u64) -> (r: u64)
    requires
        obj.jv() is Obj,
    ensures
        r == object_weight(obj.jv()->Obj_0, inherited),
{
    let meta = match obj.get("metadata") {
        Some(m) => match m {
            Json::Obj(_) => own_weight_exec(m),
            _ => None,
        },
        None => None,
    };
    let w = match own_weight_exec(obj) {
        Some(w) => w,
        None => match meta {
            Some(w) => w,
            None => inherited,
        },
    };
    if w < 1 {
        1
    } else {
        w
    }
}

fn message_records_exec(records: &mut Vec<TextRecord>, msgs: &Vec<Json>, w: u64)
    ensures
        recs(final(records)@) == recs(old(records)@) + message_records(items_view(msgs@), w),
{
    let ghost mv = items_view(msgs@);
    let ghost start = recs(records@);
    let mut i: usize = 0;
    assert(mv.skip(0) =~= mv);
    assert(start + message_records(mv, w) =~= recs(records@) + message_records(mv.skip(0), w));
    while i < msgs.len()
        invariant
            i <= msgs.len(),
            mv == items_view(msgs@),
            start + message_records(mv, w) == recs(records@) + message_records(mv.skip(i as int), w),
        decreases msgs.len() - i,
    {
        assert(mv.skip(i as int)[0] == msgs@[i as int].jv());
        assert(mv.skip(i as int).drop_first() =~= mv.skip(i + 1));
        let ghost before = recs(records@);
        push_str(records, msgs[i].get("content"), w);
        assert(before + message_records(mv.skip(i as int), w) =~= recs(records@) + message_records(
            mv.skip(i + 1),
            w,
        ));
        i = i + 1;
    }
    assert(mv.skip(msgs.len() as int) =~= Seq::<JsonV>::empty());
    assert(recs(records@) + message_records(mv.skip(msgs.len() as int), w) =~= recs(records@));
}

#[verifier::loop_isolation(false)]
#[verifier::spinoff_prover]
#[verifier::rlimit(30)]
fn tag_records_exec(records: &mut Vec<TextRecord>, v: &Json, w: u64)
    ensures
        recs(final(records)@) == recs(old(records)@) + tag_records(v.jv(), w),
    decreases v,
{
    match v {
        Json::Str(s) => push_record(records, s.as_str(), w),
        Json::Arr(items) => {
            proof {
                crate::json::lemma_arr_view(*items);
            }
            let ghost iv = items_view(items@);
            let ghost start = recs(records@);
            let mut i: usize = 0;
            assert(iv.skip(0) =~= iv);
            assert(start + tag_item_records(iv, w) =~= recs(records@) + tag_item_records(iv.skip(0), w));
            while i < items.len()
                invariant
                    i <= items.len(),
                    iv == items_view(items@),
                    start + tag_item_records(iv, w) == recs(records@) + tag_item_records(iv.skip(i as int), w),
                decreases items.len() - i,
            {
                proof {
                    assert(decreases_to!(items => items@));
                    assert(decreases_to!(items@ => items@[i as int]));
                }
                assert(iv.skip(i as int)[0] == items@[i as int].jv());
                assert(iv.skip(i as int).drop_first() =~= iv.skip(i + 1));
                let ghost before = recs(records@);
                tag_records_exec(records, &items[i], w);
                assert(before + tag_item_records(iv.skip(i as int), w) =~= recs(records@) + tag_item_records(
                    iv.skip(i + 1),
                    w,
                ));
                i = i + 1;
            }
            assert(iv.skip(items.len() as int) =~= Seq::<JsonV>::empty());
            assert(recs(records@) + tag_item_records(iv.skip(items.len() as int), w) =~= recs(records@));
        },
        Json::Obj(_) => {
            let ghost start = recs(records@);
            push_str(records, v.get("text"), w);
            push_str(records, v.get("name"), w);
            push_str(records, v.get("title"), w);
            push_str(records, v.get("tag_name"), w);
            assert(recs(records@) =~= start + tag_records(v.jv(), w));
        },
        _ => {
            assert(recs(records@) =~= recs(records@) + Seq::<(Seq<char>, Option<u64>)>::empty());
        },
    }
}

#[verifier::loop_isolation(false)]
fn extra_records_exec(records: &mut Vec<TextRecord>, v: &Json, w: u64)
    ensures
        recs(final(records)@) == recs(old(records)@) + extra_records(v.jv(), w),
    decreases v,
{
    match v {
        Json::Arr(items) => {
            proof {
                crate::json::lemma_arr_view(*items);
            }
            let ghost iv = items_view(items@);
            let ghost start = recs(records@);
            let mut i: usize = 0;
            assert(iv.skip(0) =~= iv);
            assert(start + extra_item_records(iv, w) =~= recs(records@) + extra_item_records(iv.skip(0), w));
            while i < items.len()
                invariant
                    i <= items.len(),
                    iv == items_view(items@),
                    start + extra_item_records(iv, w) == recs(records@) + extra_item_records(iv.skip(i as int), w),
                decreases items.len() - i,
            {
                proof {
                    assert(decreases_to!(items => items@));
                    assert(decreases_to!(items@ => items@[i as int]));
                }
                assert(iv.skip(i as int)[0] == items@[i as int].jv());
                assert(iv.skip(i as int).drop_first() =~= iv.skip(i + 1));
                let ghost before = recs(records@);
                extra_records_exec(records, &items[i], w);
                assert(before + extra_item_records(iv.skip(i as int), w) =~= recs(records@) + extra_item_records(
                    iv.skip(i + 1),
                    w,
                ));
                i = i + 1;
            }
            assert(iv.skip(items.len() as int) =~= Seq::<JsonV>::empty());
            assert(recs(records@) + extra_item_records(iv.skip(items.len() as int), w) =~= recs(records@));
        },
        Json::Obj(_) => {
            match v.get("tag_name") {
                Some(Json::Str(name)) => {
                    let t = trim_chars(chars_of(name.as_str()).as_slice());
                    if t.len() > 0 {
                        let hash = chars_of("#");
                        let full = if t.len() > 0 && t[0] == '#' {
                            assert(starts_with(t@, "#"@)) by {
                                reveal_strlit("#");
                                assert(t@.subrange(0, 1) =~= "#"@);
                            }
                            t
                        } else {
                            proof {
                                reveal_strlit("#");
                                if starts_with(t@, "#"@) {
                                    assert(t@[0] == t@.subrange(0, 1)[0]);
                                }
                            }
                            concat(hash.as_slice(), t.as_slice())
                        };
                        push_record(records, string_of(full.as_slice()).as_str(), w);
                    } else {
                        assert(recs(records@) =~= recs(records@) + Seq::<(Seq<char>, Option<u64>)>::empty());
                    }
                },
                _ => {
                    assert(recs(records@) =~= recs(records@) + Seq::<(Seq<char>, Option<u64>)>::empty());
                },
            }
        },
        _ => {
            assert(recs(records@) =~= recs(records@) + Seq::<(Seq<char>, Option<u64>)>::empty());
        },
    }
}

fn field_records_exec(records: &mut Vec<TextRecord>, obj: &Json, w: u64)
    requires
        obj.jv() is Obj,
    ensures
        recs(final(records)@) == recs(old(records)@) + field_records(obj.jv()->Obj_0, w),
{
    let ghost start = recs(records@);
    push_str(records, obj.get("text"), w);
    push_str(records, obj.get("desc"), w);
    push_str(records, obj.get("content"), w);
    assert(recs(records@) =~= start + field_records(obj.jv()->Obj_0, w));
}

fn label_records_exec(records: &mut Vec<TextRecord>, obj: &Json, w: u64)
    requires
        obj.jv() is Obj,
    ensures
        recs(final(records)@) == recs(old(records)@) + label_records(obj.jv()->Obj_0, w),
{
    let ghost start = recs(records@);
    match obj.get("tag") {
        Some(t) => tag_records_exec(records, t, w),
        None => {
            assert(recs(records@) =~= recs(records@) + Seq::<(Seq<char>, Option<u64>)>::empty());
        },
    }
    let ghost mid = recs(records@);
    match obj.get("text_extra") {
        Some(t) => extra_records_exec(records, t, w),
        None => {
            assert(recs(records@) =~= recs(records@) + Seq::<(Seq<char>, Option<u64>)>::empty());
        },
    }
    assert(recs(records@) =~= start + label_records(obj.jv()->Obj_0, w));
}

fn own_records_exec(records: &mut Vec<TextRecord>, obj: &Json, w: u64)
    requires
        obj.jv() is Obj,
    ensures
        recs(final(records)@) == recs(old(records)@) + own_records(obj.jv()->Obj_0, w),
{
    let ghost start = recs(records@);
    match obj.get("messages") {
        Some(Json::Arr(msgs)) => {
            proof {
                crate::json::lemma_arr_view(*msgs);
            }
            message_records_exec(records, msgs, w);
            return;
        },
        _ => {},
    }
    field_records_exec(records, obj, w);
    label_records_exec(records, obj, w);
    assert(recs(records@) =~= start + own_records(obj.jv()->Obj_0, w));
}

/// Appends the records of a JSON document; see [`records_of`].
#[verifier::loop_isolation(false)]
#[verifier::spinoff_prover]
#[verifier::rlimit(30)]
pub fn extract_value(v: &Json, weight: u64, records: &mut Vec<TextRecord>)
    ensures
        recs(final(records)@) == recs(old(records)@) + records_of(v.jv(), weight),
    decreases v,
{
    match v {
        Json::Str(s) => push_record(records, s.as_str(), weight),
        Json::Arr(items) => {
            proof {
                crate::json::lemma_arr_view(*items);
            }
            let ghost iv = items_view(items@);
            let ghost start = recs(records@);
            let mut i: usize = 0;
            assert(iv.skip(0) =~= iv);
            assert(start + item_records(iv, weight) =~= recs(records@) + item_records(iv.skip(0), weight));
            while i < items.len()
                invariant
                    i <= items.len(),
                    iv == items_view(items@),
                    start + item_records(iv, weight) == recs(records@) + item_records(iv.skip(i as int), weight),
                decreases items.len() - i,
            {
                proof {
                    assert(decreases_to!(items => items@));
                    assert(decreases_to!(items@ => items@[i as int]));
                }
                assert(iv.skip(i as int)[0] == items@[i as int].jv());
                assert(iv.skip(i as int).drop_first() =~= iv.skip(i + 1));
                let ghost before = recs(records@);
                extract_value(&items[i], weight, records);
                assert(before + item_records(iv.skip(i as int), weight) =~= recs(records@) + item_records(
                    iv.skip(i + 1),
                    weight,
                ));
                i = i + 1;
            }
            assert(iv.skip(items.len() as int) =~= Seq::<JsonV>::empty());
            assert(recs(records@) + item_records(iv.skip(items.len() as int), weight) =~= recs(records@));
        },
        Json::Obj(es) => {
            proof {
                crate::json::lemma_obj_view(*es);
            }
            let ghost ev = crate::json::entries_view(es@);
            let w = object_weight_exec(v, weight);
            let ghost start = recs(records@);
            own_records_exec(records, v, w);
            let ghost mid = recs(records@);
            let mut i: usize = 0;
            assert(ev.skip(0) =~= ev);
            assert(mid + nested_records(ev, w) =~= recs(records@) + nested_records(ev.skip(0), w));
            while i < es.len()
                invariant
                    i <= es.len(),
                    ev == crate::json::entries_view(es@),
                    mid + nested_records(ev, w) == recs(records@) + nested_records(ev.skip(i as int), w),
                decreases es.len() - i,
            {
                proof {
                    assert(decreases_to!(es => es@));
                    assert(decreases_to!(es@ => es@[i as int]));
                    assert(decreases_to!(es@[i as int] => es@[i as int].1));
                }
                assert(ev.skip(i as int)[0] == (es@[i as int].0@, es@[i as int].1.jv()));
                assert(ev.skip(i as int).drop_first() =~= ev.skip(i + 1));
                let ghost before = recs(records@);
                let k = es[i].0.as_str();
                let skip = crate::json::str_eq(k, "messages") || crate::json::str_eq(k, "text")
                    || crate::json::str_eq(k, "desc") || crate::json::str_eq(k, "content")
                    || crate::json::str_eq(k, "tag") || crate::json::str_eq(k, "text_extra")
                    || crate::json::str_eq(k, "weight") || crate::json::str_eq(k, "digg_count")
                    || crate::json::str_eq(k, "quality_score") || crate::json::str_eq(k, "score");
                if !skip {
                    match &es[i].1 {
                        Json::Arr(_) => extract_value(&es[i].1, w, records),
                        Json::Obj(_) => extract_value(&es[i].1, w, records),
                        _ => {},
                    }
                }
                assert(before + nested_records(ev.skip(i as int), w) =~= recs(records@) + nested_records(
                    ev.skip(i + 1),
                    w,
                ));
                i = i + 1;
            }
            assert(ev.skip(es.len() as int) =~= Seq::<(Seq<char>, JsonV)>::empty());
            assert(recs(records@) + nested_records(ev.skip(es.len() as int), w) =~= recs(records@));
            assert(recs(records@) =~= start + records_of(v.jv(), weight));
        },
        _ => {
            assert(recs(records@) =~= recs(records@) + Seq::<(Seq<char>, Option<u64>)>::empty());
        },
    }
}

/// A line without the `\r` of a `\r\n` line ending.
pub open spec fn strip_cr(l: Seq<char>) -> Seq<char> {
    if l.len() > 0 && l.last() == '\r' {
        l.drop_last()
    } else {
        l
    }
}

/// `str::lines`, with a possibly empty last line: lines end at `\n`, and the
/// `\r` before a `\n` is no part of its line.
pub open spec fn lines_of(s: Seq<char>) -> Seq<Seq<char>> {
    let parts = split_char(s, '\n');
    Seq::new(
        parts.len(),
        |i: int|
            if i < parts.len() - 1 {
                strip_cr(parts[i])
            } else {
                parts[i]
            },
    )
}

/// The lines that hold more than whitespace.
pub open spec fn nonblank(lines: Seq<Seq<char>>) -> Seq<Seq<char>>
    decreases lines.len(),
{
    if lines.len() == 0 {
        Seq::empty()
    } else if trim(lines.last()).len() > 0 {
        nonblank(lines.drop_last()).push(lines.last())
    } else {
        nonblank(lines.drop_last())
    }
}

/// The lines of an input that hold more than whitespace.
pub open spec fn content_lines(s: Seq<char>) -> Seq<Seq<char>> {
    nonblank(lines_of(s))
}

/// The records of JSON lines: `None` unless every line parsed and gave records.
pub open spec fn json_line_records(parsed: Seq<Option<JsonV>>) -> Option<Seq<(Seq<char>, Option<u64>)>>
    decreases parsed.len(),
{
    if parsed.len() == 0 {
        Some(Seq::empty())
    } else {
        match json_line_records(parsed.drop_last()) {
            Some(before) => match parsed.last() {
                Some(v) => if records_of(v, 1).len() > 0 {
                    Some(before + records_of(v, 1))
                } else {
                    None
                },
                None => None,
            },
            None => None,
        }
    }
}

/// Each line as a record without weight.
pub open spec fn plain_records(lines: Seq<Seq<char>>) -> Seq<(Seq<char>, Option<u64>)> {
    Seq::new(lines.len(), |i: int| (trim(lines[i]), None::<u64>))
}

/// The records of an input: those of the whole document when it is an
/// object, array or string that gives some; else those of its lines parsed
/// as JSON when each gives some; else each non-blank line as plain text.
/// `whole` is the input parsed as JSON and `parsed` each line parsed.
pub open spec fn input_records(
    whole: Option<JsonV>,
    lines: Seq<Seq<char>>,
    parsed: Seq<Option<JsonV>>,
) -> Seq<(Seq<char>, Option<u64>)> {
    let doc = match whole {
        Some(v) => match v {
            JsonV::Obj(_) => records_of(v, 1),
            JsonV::Arr(_) => records_of(v, 1),
            JsonV::Str(_) => records_of(v, 1),
            _ => Seq::empty(),
        },
        None => Seq::empty(),
    };
    if doc.len() > 0 {
        doc
    } else if lines.len() > 0 && (json_line_records(parsed) matches Some(r) && r.len() > 0) {
        json_line_records(parsed).unwrap()
    } else {
        plain_records(lines)
    }
}

/// The plain values of optional documents.
pub open spec fn opt_docs(v: Seq<Option<Json>>) -> Seq<Option<JsonV>> {
    Seq::new(
        v.len(),
        |i: int|
            match v[i] {
                Some(j) => Some(j.jv()),
                None => None,
            },
    )
}

/// The records of an input once it and its lines were parsed as JSON; see
/// [`input_records`].
pub fn records_from(whole: Option<Json>, lines: &Vec<String>, parsed: &Vec<Option<Json>>) -> (r: Vec<
    TextRecord,
>)
    ensures
        recs(r@) == input_records(
            match whole {
                Some(j) => Some(j.jv()),
                None => None,
            },
            crate::target::strings_view(lines@),
            opt_docs(parsed@),
        ),
{
    let mut records: Vec<TextRecord> = Vec::new();
    assert(recs(records@) =~= Seq::<(Seq<char>, Option<u64>)>::empty());
    match &whole {
        Some(v) => match v {
            Json::Obj(_) | Json::Arr(_) | Json::Str(_) => {
                extract_value(v, 1, &mut records);
                assert(recs(records@) =~= Seq::<(Seq<char>, Option<u64>)>::empty() + records_of(v.jv(), 1));
                if records.len() > 0 {
                    return records;
                }
            },
            _ => {},
        },
        None => {},
    }
    let ghost pv = opt_docs(parsed@);
    if lines.len() > 0 {
        let mut all: Vec<TextRecord> = Vec::new();
        let mut ok = true;
        let mut i: usize = 0;
        assert(pv.take(0) =~= Seq::<Option<JsonV>>::empty());
        assert(recs(all@) =~= Seq::<(Seq<char>, Option<u64>)>::empty());
        while i < parsed.len() && ok
            invariant
                i <= parsed.len(),
                pv == opt_docs(parsed@),
                ok ==> json_line_records(pv.take(i as int)) == Some(recs(all@)),
                !ok ==> json_line_records(pv) is None,
            decreases parsed.len() - i, if ok { 1int } else { 0int },
        {
            assert(pv.take(i + 1).drop_last() =~= pv.take(i as int));
            assert(pv.take(i + 1).last() == pv[i as int]);
            match &parsed[i] {
                Some(v) => {
                    let mut got: Vec<TextRecord> = Vec::new();
                    assert(recs(got@) =~= Seq::<(Seq<char>, Option<u64>)>::empty());
                    extract_value(v, 1, &mut got);
                    assert(recs(got@) =~= Seq::<(Seq<char>, Option<u64>)>::empty() + records_of(v.jv(), 1));
                    if got.len() > 0 {
                        let ghost before = recs(all@);
                        let mut k: usize = 0;
                        while k < got.len()
                            invariant
                                k <= got.len(),
                                recs(all@) == before + recs(got@).take(k as int),
                            decreases got.len() - k,
                        {
                            let ghost b2 = all@;
                            all.push(got[k].clone_record());
                            assert(recs(all@) =~= recs(b2).push(recs(got@)[k as int]));
                            assert(recs(got@).take(k + 1) =~= recs(got@).take(k as int).push(recs(got@)[k as int]));
                            k = k + 1;
                        }
                        assert(recs(got@).take(got.len() as int) =~= recs(got@));
                        i = i + 1;
                    } else {
                        ok = false;
                        proof {
                            lemma_line_records_none(pv, i as int);
                        }
                    }
                },
                None => {
                    ok = false;
                    proof {
                        lemma_line_records_none(pv, i as int);
                    }
                },
            }
        }
        if ok {
            assert(pv.take(parsed.len() as int) =~= pv);
            if all.len() > 0 {
                return all;
            }
        }
    }
    let mut plain: Vec<TextRecord> = Vec::new();
    let ghost lv = crate::target::strings_view(lines@);
    let mut j: usize = 0;
    while j < lines.len()
        invariant
            j <= lines.len(),
            lv == crate::target::strings_view(lines@),
            recs(plain@) == plain_records(lv).take(j as int),
        decreases lines.len() - j,
    {
        let t = trim_chars(chars_of(lines[j].as_str()).as_slice());
        let ghost b = plain@;
        plain.push(TextRecord { text: string_of(t.as_slice()), weight: None });
        assert(recs(plain@) =~= recs(b).push(plain_records(lv)[j as int]));
        assert(plain_records(lv).take(j + 1) =~= plain_records(lv).take(j as int).push(
            plain_records(lv)[j as int],
        ));
        j = j + 1;
    }
    assert(plain_records(lv).take(lines.len() as int) =~= plain_records(lv));
    plain
}

/// Once a line gives no records, the JSON lines give none.
proof fn lemma_line_records_none(pv: Seq<Option<JsonV>>, i: int)
    requires
        0 <= i < pv.len(),
        json_line_records(pv.take(i + 1)) is None,
    ensures
        json_line_records(pv) is None,
    decreases pv.len() - i,
{
    if i + 1 < pv.len() {
        assert(pv.take(i + 2).drop_last() =~= pv.take(i + 1));
        lemma_line_records_none(pv, i + 1);
    } else {
        assert(pv.take(i + 1) =~= pv);
    }
}

impl TextRecord {
    /// A copy of the record.
    pub fn clone_record(&self) -> (r: TextRecord)
        ensures
            r.text@ == self.text@,
            r.weight == self.weight,
    {
        TextRecord { text: self.text.clone(), weight: self.weight }
    }
}

/// The lines of an input that hold more than whitespace; see [`content_lines`].
pub fn input_lines(input: &str) -> (r: Vec<String>)
    ensures
        crate::target::strings_view(r@) == content_lines(input@),
{
    let parts = split_on_char(chars_of(input).as_slice(), '\n');
    let ghost lv = lines_of(input@);
    let mut out: Vec<String> = Vec::new();
    let mut i: usize = 0;
    assert(lv.take(0) =~= Seq::<Seq<char>>::empty());
    while i < parts.len()
        invariant
            i <= parts.len(),
            parts@.len() == split_char(input@, '\n').len(),
            forall|k: int| 0 <= k < parts@.len() ==> #[trigger] parts@[k]@ == split_char(input@, '\n')[k],
            lv == lines_of(input@),
            crate::target::strings_view(out@) == nonblank(lv.take(i as int)),
        decreases parts.len() - i,
    {
        assert(lv.take(i + 1).drop_last() =~= lv.take(i as int));
        let p = &parts[i];
        let line: Vec<char> = if i + 1 < parts.len() && p.len() > 0 && p[p.len() - 1] == '\r' {
            let l = crate::text::slice_chars(p.as_slice(), 0, p.len() - 1);
            assert(l@ =~= p@.drop_last());
            l
        } else {
            crate::text::slice_chars(p.as_slice(), 0, p.len())
        };
        assert(p@.subrange(0, p.len() as int) =~= p@);
        assert(lv.take(i + 1).last() == line@);
        if trim_chars(line.as_slice()).len() > 0 {
            let ghost before = out@;
            out.push(string_of(line.as_slice()));
            assert(crate::target::strings_view(out@) =~= crate::target::strings_view(before).push(line@));
        }
        i = i + 1;
    }
    assert(lv.take(parts.len() as int) =~= lv);
    out
}

/// The records of JSON, JSONL or plain-text input; see [`input_records`].
/// Whether the input and each of its lines parse, and to what, is the named
/// [`json_doc`].
pub fn parse_records(input: &str) -> (r: Vec<TextRecord>)
    ensures
        recs(r@) == input_records(
            json_doc(input@),
            content_lines(input@),
            Seq::new(content_lines(input@).len(), |i: int| json_doc(content_lines(input@)[i])),
        ),
{
    let whole = parse_json_doc(input);
    let lines = input_lines(input);
    let ghost lv = content_lines(input@);
    let mut parsed: Vec<Option<Json>> = Vec::new();
    let mut i: usize = 0;
    while i < lines.len()
        invariant
            i <= lines.len(),
            crate::target::strings_view(lines@) == lv,
            parsed@.len() == i,
            forall|k: int| 0 <= k < i ==> #[trigger] opt_docs(parsed@)[k] == json_doc(lv[k]),
        decreases lines.len() - i,
    {
        let ghost before = parsed@;
        let d = parse_json_doc(lines[i].as_str());
        assert(lv[i as int] == lines@[i as int]@);
        assert(match d {
            Some(j) => Some(j.jv()),
            None => None,
        } == json_doc(lv[i as int]));
        parsed.push(d);
        assert forall|k: int| 0 <= k < i + 1 implies #[trigger] opt_docs(parsed@)[k] == json_doc(lv[k]) by {
            if k < i {
                assert(opt_docs(parsed@)[k] == opt_docs(before)[k]);
                assert(opt_docs(before)[k] == json_doc(lv[k]));
            }
        }
        i = i + 1;
    }
    let ghost want = Seq::new(lv.len(), |k: int| json_doc(lv[k]));
    assert(opt_docs(parsed@) =~= want);
    assert(match whole {
        Some(j) => Some(j.jv()),
        None => None,
    } == json_doc(input@));
    records_from(whole, &lines, &parsed)
}

/// Common Chinese words that carry no topic.
pub open spec fn stop_words() -> Seq<Seq<char>> {
    seq![
        "一个"@,
        "一些"@,
        "不是"@,
        "不要"@,
        "不过"@,
        "为了"@,
        "为什么"@,
        "什么"@,
        "他们"@,
        "你们"@,
        "但是"@,
        "可以"@,
        "可能"@,
        "因为"@,
        "所以"@,
        "这个"@,
        "那个"@,
        "这些"@,
        "那些"@,
        "真的"@,
        "已经"@,
        "还是"@,
        "就是"@,
        "然后"@,
        "如果"@,
        "我们"@,
        "我的"@,
        "你的"@,
        "他的"@,
        "她的"@,
        "它的"@,
        "怎么"@,
        "怎样"@,
        "哪里"@,
        "有没有"@,
        "能不能"@,
        "需要"@,
        "想要"@,
        "推荐"@,
        "多少"@,
        "多少钱"@,
        "链接"@,
        "教程"@,
        "求"@,
        "的"@,
        "了"@,
        "呢"@,
        "吗"@,
        "啊"@,
        "呀"@,
        "吧"@,
        "也"@,
        "都"@,
        "和"@,
        "与"@,
        "或"@,
        "在"@,
        "是"@,
        "有"@,
        "就"@,
        "很"@,
        "太"@,
        "还"@,
        "又"@,
        "被"@,
        "把"@,
        "给"@,
        "到"@,
        "从"@,
        "对"@,
        "让"@,
        "要"@,
    ]
}

/// Common English words that carry no topic.
pub open spec fn english_stop_words() -> Seq<Seq<char>> {
    seq![
        "a"@,
        "an"@,
        "and"@,
        "are"@,
        "as"@,
        "at"@,
        "be"@,
        "but"@,
        "by"@,
        "for"@,
        "from"@,
        "has"@,
        "have"@,
        "he"@,
        "her"@,
        "his"@,
        "i"@,
        "in"@,
        "is"@,
        "it"@,
        "me"@,
        "my"@,
        "not"@,
        "of"@,
        "on"@,
        "or"@,
        "our"@,
        "she"@,
        "so"@,
        "that"@,
        "the"@,
        "their"@,
        "them"@,
        "they"@,
        "this"@,
        "to"@,
        "was"@,
        "we"@,
        "were"@,
        "what"@,
        "when"@,
        "where"@,
        "which"@,
        "who"@,
        "why"@,
        "with"@,
        "you"@,
        "your"@,
    ]
}

/// The views of string slices.
pub open spec fn strs(v: Seq<&str>) -> Seq<Seq<char>> {
    Seq::new(v.len(), |i: int| v[i]@)
}

fn stop_word_list() -> (r: Vec<&'static str>)
    ensures
        strs(r@) == stop_words(),
{
    let v = vec![
        "一个",
        "一些",
        "不是",
        "不要",
        "不过",
        "为了",
        "为什么",
        "什么",
        "他们",
        "你们",
        "但是",
        "可以",
        "可能",
        "因为",
        "所以",
        "这个",
        "那个",
        "这些",
        "那些",
        "真的",
        "已经",
        "还是",
        "就是",
        "然后",
        "如果",
        "我们",
        "我的",
        "你的",
        "他的",
        "她的",
        "它的",
        "怎么",
        "怎样",
        "哪里",
        "有没有",
        "能不能",
        "需要",
        "想要",
        "推荐",
        "多少",
        "多少钱",
        "链接",
        "教程",
        "求",
        "的",
        "了",
        "呢",
        "吗",
        "啊",
        "呀",
        "吧",
        "也",
        "都",
        "和",
        "与",
        "或",
        "在",
        "是",
        "有",
        "就",
        "很",
        "太",
        "还",
        "又",
        "被",
        "把",
        "给",
        "到",
        "从",
        "对",
        "让",
        "要",
    ];
    assert(strs(v@) =~= stop_words());
    v
}

fn english_stop_word_list() -> (r: Vec<&'static str>)
    ensures
        strs(r@) == english_stop_words(),
{
    let v = vec![
        "a",
        "an",
        "and",
        "are",
        "as",
        "at",
        "be",
        "but",
        "by",
        "for",
        "from",
        "has",
        "have",
        "he",
        "her",
        "his",
        "i",
        "in",
        "is",
        "it",
        "me",
        "my",
        "not",
        "of",
        "on",
        "or",
        "our",
        "she",
        "so",
        "that",
        "the",
        "their",
        "them",
        "they",
        "this",
        "to",
        "was",
        "we",
        "were",
        "what",
        "when",
        "where",
        "which",
        "who",
        "why",
        "with",
        "you",
        "your",
    ];
    assert(strs(v@) =~= english_stop_words());
    v
}

/// `words` holds `t`.
pub fn listed(words: &Vec<&str>, t: &[char]) -> (r: bool)
    ensures
        r == strs(words@).contains(t@),
{
    let mut i: usize = 0;
    while i < words.len()
        invariant
            i <= words.len(),
            forall|k: int| 0 <= k < i ==> (#[trigger] words@[k])@ != t@,
        decreases words.len() - i,
    {
        if same_chars(chars_of(words[i]).as_slice(), t) {
            assert(strs(words@)[i as int] == t@);
            return true;
        }
        i = i + 1;
    }
    assert forall|k: int| 0 <= k < strs(words@).len() implies strs(words@)[k] != t@ by {
        assert(strs(words@)[k] == words@[k]@);
    }
    false
}

/// A CJK ideograph.
pub open spec fn is_han(c: char) -> bool {
    ('\u{3400}' <= c && c <= '\u{4dbf}') || ('\u{4e00}' <= c && c <= '\u{9fff}') || ('\u{f900}' <= c
        && c <= '\u{faff}')
}

/// A pictograph or symbol of the emoji blocks.
pub open spec fn is_emoji(c: char) -> bool {
    ('\u{1f000}' <= c && c <= '\u{1faff}') || ('\u{2600}' <= c && c <= '\u{26ff}') || ('\u{2700}'
        <= c && c <= '\u{27bf}')
}

/// A character of a topic name.
pub open spec fn is_word_char(c: char) -> bool {
    is_han(c) || crate::text::is_alnum(c) || c == '_'
}

/// Executable form of [`is_han`].
pub fn is_han_char(c: char) -> (r: bool)
    ensures
        r == is_han(c),
{
    ('\u{3400}' <= c && c <= '\u{4dbf}') || ('\u{4e00}' <= c && c <= '\u{9fff}') || ('\u{f900}' <= c
        && c <= '\u{faff}')
}

/// Executable form of [`is_emoji`].
pub fn is_emoji_char(c: char) -> (r: bool)
    ensures
        r == is_emoji(c),
{
    ('\u{1f000}' <= c && c <= '\u{1faff}') || ('\u{2600}' <= c && c <= '\u{26ff}') || ('\u{2700}'
        <= c && c <= '\u{27bf}')
}

/// Executable form of [`is_word_char`].
pub fn word_char(c: char) -> (r: bool)
    ensures
        r == is_word_char(c),
{
    is_han_char(c) || crate::text::is_ascii_alnum(c) || c == '_'
}

/// A character of a run of the given class: topic-name characters (0),
/// ASCII words with `_`, `-` and `.` (1), or ideographs (2).
pub open spec fn in_class(c: char, class: u8) -> bool {
    if class == 0 {
        is_word_char(c)
    } else if class == 1 {
        crate::text::is_alnum(c) || c == '_' || c == '-' || c == '.'
    } else {
        is_han(c)
    }
}

/// The length of the run of `class` characters from `j` on.
pub open spec fn run(cs: Seq<char>, j: int, class: u8) -> nat
    decreases cs.len() - j,
{
    if 0 <= j < cs.len() && in_class(cs[j], class) {
        1 + run(cs, j + 1, class)
    } else {
        0
    }
}

/// A run ends within the text.
pub proof fn lemma_run_bound(cs: Seq<char>, j: int, class: u8)
    requires
        0 <= j <= cs.len(),
    ensures
        j + run(cs, j, class) <= cs.len(),
    decreases cs.len() - j,
{
    if j < cs.len() && in_class(cs[j], class) {
        lemma_run_bound(cs, j + 1, class);
    }
}

/// `char::to_ascii_lowercase`.
pub open spec fn lower_char(c: char) -> char {
    if 'A' <= c && c <= 'Z' {
        ((c as u32) + 32) as char
    } else {
        c
    }
}

/// `str::to_ascii_lowercase`.
pub open spec fn lower_seq(t: Seq<char>) -> Seq<char> {
    Seq::new(t.len(), |k: int| lower_char(t[k]))
}

/// The length of the longest of `words` that `rest` starts with; 0 if none.
pub open spec fn longest_prefix(rest: Seq<char>, words: Seq<Seq<char>>) -> nat
    decreases words.len(),
{
    if words.len() == 0 {
        0
    } else {
        let here = if starts_with(rest, words[0]) {
            words[0].len()
        } else {
            0
        };
        let other = longest_prefix(rest, words.drop_first());
        if here > other {
            here
        } else {
            other
        }
    }
}

/// A run of ideographs cut at stop words (longest first), which are dropped;
/// `current` is the chunk begun so far.
pub open spec fn han_chunks(rest: Seq<char>, current: Seq<char>) -> Seq<Seq<char>>
    decreases rest.len(),
{
    if rest.len() == 0 {
        if current.len() > 0 {
            seq![current]
        } else {
            Seq::empty()
        }
    } else {
        let n = longest_prefix(rest, stop_words());
        if 0 < n <= rest.len() {
            (if current.len() > 0 {
                seq![current]
            } else {
                Seq::empty()
            }) + han_chunks(rest.skip(n as int), Seq::empty())
        } else {
            han_chunks(rest.drop_first(), current.push(rest[0]))
        }
    }
}

/// The windows of `size` characters of a chunk from `k` on, stop words left out.
pub open spec fn window_tokens(chunk: Seq<char>, size: nat, k: nat) -> Seq<Seq<char>>
    decreases chunk.len() - k,
{
    if size == 0 || k + size > chunk.len() {
        Seq::empty()
    } else {
        let w = chunk.subrange(k as int, (k + size) as int);
        (if stop_words().contains(w) {
            Seq::empty()
        } else {
            seq![w]
        }) + window_tokens(chunk, size, k + 1)
    }
}

/// The words of a chunk: the chunk itself when it has 2 to 8 characters and
/// is no stop word, and for a chunk of more than 4 characters all its windows
/// of 2, 3 and 4 characters that are no stop words.
pub open spec fn chunk_tokens(chunk: Seq<char>) -> Seq<Seq<char>> {
    let whole = if 2 <= chunk.len() <= 8 && !stop_words().contains(chunk) {
        seq![chunk]
    } else {
        Seq::empty()
    };
    if chunk.len() > 4 {
        whole + window_tokens(chunk, 2, 0) + window_tokens(chunk, 3, 0) + window_tokens(chunk, 4, 0)
    } else {
        whole
    }
}

/// The words of the chunks, in order.
pub open spec fn chunks_tokens(chunks: Seq<Seq<char>>) -> Seq<Seq<char>>
    decreases chunks.len(),
{
    if chunks.len() == 0 {
        Seq::empty()
    } else {
        chunk_tokens(chunks[0]) + chunks_tokens(chunks.drop_first())
    }
}

/// The words of a text from position `i` on: `#` topics, lower-cased ASCII
/// words that are no English stop words, and the words of each run of ideographs.
pub open spec fn tokens_from(cs: Seq<char>, i: int) -> Seq<Seq<char>>
    decreases cs.len() - i,
{
    if i < 0 || i >= cs.len() {
        Seq::empty()
    } else if cs[i] == '#' {
        let n = run(cs, i + 1, 0);
        proof {
            lemma_run_bound(cs, i + 1, 0);
        }
        (if n > 0 {
            seq![cs.subrange(i, i + 1 + n)]
        } else {
            Seq::empty()
        }) + tokens_from(cs, i + 1 + n)
    } else if crate::text::is_alnum(cs[i]) {
        let n = run(cs, i + 1, 1);
        proof {
            lemma_run_bound(cs, i + 1, 1);
        }
        let tok = lower_seq(cs.subrange(i, i + 1 + n));
        (if english_stop_words().contains(tok) {
            Seq::empty()
        } else {
            seq![tok]
        }) + tokens_from(cs, i + 1 + n)
    } else if is_han(cs[i]) {
        let n = run(cs, i + 1, 2);
        proof {
            lemma_run_bound(cs, i + 1, 2);
        }
        chunks_tokens(han_chunks(cs.subrange(i, i + 1 + n), Seq::empty())) + tokens_from(
            cs,
            i + 1 + n,
        )
    } else {
        tokens_from(cs, i + 1)
    }
}

/// The words of a text; see [`tokens_from`].
pub open spec fn text_tokens(t: Seq<char>) -> Seq<Seq<char>> {
    tokens_from(t, 0)
}

proof fn lemma_occurs_skip(s: Seq<char>, w: Seq<char>, off: int)
    requires
        0 <= off <= s.len(),
    ensures
        crate::text::occurs_at(s, w, off) == starts_with(s.skip(off), w),
{
    if off + w.len() <= s.len() {
        assert(s.skip(off).subrange(0, w.len() as int) =~= s.subrange(off, off + w.len()));
    }
}

fn longest_stop_at(seg: &[char], off: usize, words: &Vec<&str>) -> (r: usize)
    requires
        off <= seg.len(),
    ensures
        r == longest_prefix(seg@.skip(off as int), strs(words@)),
        r <= seg.len() - off,
{
    let ghost rest = seg@.skip(off as int);
    let ghost wv = strs(words@);
    let mut best: usize = 0;
    let mut i: usize = words.len();
    assert(wv.skip(words.len() as int) =~= Seq::<Seq<char>>::empty());
    while i > 0
        invariant
            i <= words.len(),
            off <= seg.len(),
            rest == seg@.skip(off as int),
            wv == strs(words@),
            best == longest_prefix(rest, wv.skip(i as int)),
            best <= seg.len() - off,
        decreases i,
    {
        i = i - 1;
        assert(wv.skip(i as int)[0] == words@[i as int]@);
        assert(wv.skip(i as int).drop_first() =~= wv.skip(i + 1));
        let w = chars_of(words[i]);
        let here = crate::text::occurs_at_exec(seg, w.as_slice(), off);
        proof {
            lemma_occurs_skip(seg@, w@, off as int);
        }
        if here && w.len() > best {
            best = w.len();
        }
    }
    assert(wv.skip(0) =~= wv);
    best
}

/// Cuts a run of ideographs at stop words; see [`han_chunks`].
pub fn split_han_chunks(seg: &[char]) -> (r: Vec<Vec<char>>)
    ensures
        Seq::new(r@.len(), |k: int| r@[k]@) == han_chunks(seg@, Seq::empty()),
{
    let words = stop_word_list();
    let mut chunks: Vec<Vec<char>> = Vec::new();
    let mut current: Vec<char> = Vec::new();
    let mut off: usize = 0;
    assert(seg@.skip(0) =~= seg@);
    assert(Seq::new(chunks@.len(), |k: int| chunks@[k]@) + han_chunks(seg@.skip(0), current@) =~= han_chunks(seg@, Seq::empty()));
    while off < seg.len()
        invariant
            off <= seg.len(),
            strs(words@) == stop_words(),
            Seq::new(chunks@.len(), |k: int| chunks@[k]@) + han_chunks(seg@.skip(off as int), current@)
                == han_chunks(seg@, Seq::empty()),
        decreases seg.len() - off,
    {
        let ghost rest = seg@.skip(off as int);
        let ghost cv = Seq::new(chunks@.len(), |k: int| chunks@[k]@);
        let n = longest_stop_at(seg, off, &words);
        assert(rest.len() > 0);
        if n > 0 {
            let ghost cur = current@;
            let ghost head = if cur.len() > 0 {
                seq![cur]
            } else {
                Seq::<Seq<char>>::empty()
            };
            assert(han_chunks(rest, cur) == head + han_chunks(rest.skip(n as int), Seq::empty()));
            assert(cv + (head + han_chunks(rest.skip(n as int), Seq::empty())) =~= (cv + head) + han_chunks(
                rest.skip(n as int),
                Seq::empty(),
            ));
            if current.len() > 0 {
                chunks.push(current);
                current = Vec::new();
                assert(Seq::new(chunks@.len(), |k: int| chunks@[k]@) =~= cv + seq![cur]);
            } else {
                assert(Seq::new(chunks@.len(), |k: int| chunks@[k]@) =~= cv + Seq::<Seq<char>>::empty());
            }
            assert(rest.skip(n as int) =~= seg@.skip(off + n));
            assert(current@ =~= Seq::<char>::empty());
            assert(Seq::new(chunks@.len(), |k: int| chunks@[k]@) == cv + head);
            off = off + n;
            assert(Seq::new(chunks@.len(), |k: int| chunks@[k]@) + han_chunks(seg@.skip(off as int), current@)
                == han_chunks(seg@, Seq::empty()));
        } else {
            let ghost cur = current@;
            assert(han_chunks(rest, cur) == han_chunks(rest.drop_first(), cur.push(rest[0])));
            current.push(seg[off]);
            assert(rest[0] == seg@[off as int]);
            assert(rest.drop_first() =~= seg@.skip(off + 1));
            assert(current@ == cur.push(rest[0]));
            assert(Seq::new(chunks@.len(), |k: int| chunks@[k]@) == cv);
            off = off + 1;
            assert(Seq::new(chunks@.len(), |k: int| chunks@[k]@) + han_chunks(seg@.skip(off as int), current@)
                == han_chunks(seg@, Seq::empty()));
        }
    }
    let ghost cv = Seq::new(chunks@.len(), |k: int| chunks@[k]@);
    assert(seg@.skip(off as int) =~= Seq::<char>::empty());
    if current.len() > 0 {
        let ghost cur = current@;
        chunks.push(current);
        assert(Seq::new(chunks@.len(), |k: int| chunks@[k]@) =~= cv + seq![cur]);
    } else {
        assert(cv + Seq::<Seq<char>>::empty() =~= cv);
    }
    chunks
}

/// The strings of character lists.
pub open spec fn char_lists(v: Seq<Vec<char>>) -> Seq<Seq<char>> {
    Seq::new(v.len(), |k: int| v[k]@)
}

fn window_tokens_exec(chunk: &[char], size: usize, words: &Vec<&str>, out: &mut Vec<Vec<char>>)
    requires
        strs(words@) == stop_words(),
        size > 0,
    ensures
        char_lists(final(out)@) == char_lists(old(out)@) + window_tokens(chunk@, size as nat, 0),
{
    let ghost start = char_lists(out@);
    let mut k: usize = 0;
    while k <= chunk.len() && size <= chunk.len() - k
        invariant
            size > 0,
            k <= chunk.len(),
            strs(words@) == stop_words(),
            start + window_tokens(chunk@, size as nat, 0) == char_lists(out@) + window_tokens(
                chunk@,
                size as nat,
                k as nat,
            ),
        decreases chunk.len() - k,
    {
        let w = crate::text::slice_chars(chunk, k, k + size);
        let ghost before = char_lists(out@);
        if !listed(words, w.as_slice()) {
            out.push(w);
            assert(char_lists(out@) =~= before + seq![w@]);
        } else {
            assert(char_lists(out@) =~= before + Seq::<Seq<char>>::empty());
        }
        assert(w@ == chunk@.subrange(k as int, (k + size) as int));
        k = k + 1;
    }
    proof {
        if k <= chunk.len() {
            assert(window_tokens(chunk@, size as nat, k as nat) =~= Seq::<Seq<char>>::empty());
        }
    }
    assert(char_lists(out@) + Seq::<Seq<char>>::empty() =~= char_lists(out@));
}

fn chunk_tokens_exec(chunk: &[char], words: &Vec<&str>, out: &mut Vec<Vec<char>>)
    requires
        strs(words@) == stop_words(),
    ensures
        char_lists(final(out)@) == char_lists(old(out)@) + chunk_tokens(chunk@),
{
    let ghost start = char_lists(out@);
    if 2 <= chunk.len() && chunk.len() <= 8 && !listed(words, chunk) {
        out.push(crate::text::slice_chars(chunk, 0, chunk.len()));
        assert(chunk@.subrange(0, chunk.len() as int) =~= chunk@);
        assert(char_lists(out@) =~= start + seq![chunk@]);
    } else {
        assert(char_lists(out@) =~= start + Seq::<Seq<char>>::empty());
    }
    let ghost mid = char_lists(out@);
    if chunk.len() > 4 {
        window_tokens_exec(chunk, 2, words, out);
        window_tokens_exec(chunk, 3, words, out);
        window_tokens_exec(chunk, 4, words, out);
        assert(char_lists(out@) =~= start + chunk_tokens(chunk@));
    } else {
        assert(char_lists(out@) =~= start + chunk_tokens(chunk@));
    }
}

fn run_exec(cs: &[char], j: usize, class: u8) -> (r: usize)
    requires
        j <= cs.len(),
    ensures
        r == run(cs@, j as int, class),
        j + r <= cs.len(),
{
    let mut k: usize = j;
    while k < cs.len() && class_char(cs[k], class)
        invariant
            j <= k <= cs.len(),
            run(cs@, j as int, class) == (k - j) + run(cs@, k as int, class),
        decreases cs.len() - k,
    {
        k = k + 1;
    }
    k - j
}

fn class_char(c: char, class: u8) -> (r: bool)
    ensures
        r == in_class(c, class),
{
    if class == 0 {
        word_char(c)
    } else if class == 1 {
        crate::text::is_ascii_alnum(c) || c == '_' || c == '-' || c == '.'
    } else {
        is_han_char(c)
    }
}

fn lower_char_exec(c: char) -> (r: char)
    ensures
        r == lower_char(c),
{
    if 'A' <= c && c <= 'Z' {
        let b = c as u8 + 32;
        assert(b as char == ((c as u32) + 32) as char);
        b as char
    } else {
        c
    }
}

/// The words of a text; see [`text_tokens`].
pub fn word_tokens(text: &str) -> (r: Vec<String>)
    ensures
        crate::target::strings_view(r@) == text_tokens(text@),
{
    let cs = chars_of(text);
    let words = stop_word_list();
    let english = english_stop_word_list();
    let mut out: Vec<Vec<char>> = Vec::new();
    let mut i: usize = 0;
    assert(char_lists(out@) + tokens_from(cs@, 0) =~= text_tokens(text@));
    while i < cs.len()
        invariant
            i <= cs.len(),
            cs@ == text@,
            strs(words@) == stop_words(),
            strs(english@) == english_stop_words(),
            char_lists(out@) + tokens_from(cs@, i as int) == text_tokens(text@),
        decreases cs.len() - i,
    {
        let ghost before = char_lists(out@);
        let c = cs[i];
        if c == '#' {
            let n = run_exec(cs.as_slice(), i + 1, 0);
            if n > 0 {
                out.push(crate::text::slice_chars(cs.as_slice(), i, i + 1 + n));
                assert(char_lists(out@) =~= before + seq![cs@.subrange(i as int, i + 1 + n)]);
            } else {
                assert(char_lists(out@) =~= before + Seq::<Seq<char>>::empty());
            }
            i = i + 1 + n;
        } else if crate::text::is_ascii_alnum(c) {
            let n = run_exec(cs.as_slice(), i + 1, 1);
            let mut tok: Vec<char> = Vec::new();
            let mut k: usize = i;
            while k < i + 1 + n
                invariant
                    i <= k <= i + 1 + n,
                    i + 1 + n <= cs.len(),
                    tok@ == lower_seq(cs@.subrange(i as int, k as int)),
                decreases i + 1 + n - k,
            {
                tok.push(lower_char_exec(cs[k]));
                assert(tok@ =~= lower_seq(cs@.subrange(i as int, k + 1)));
                k = k + 1;
            }
            if !listed(&english, tok.as_slice()) {
                out.push(tok);
                assert(char_lists(out@) =~= before + seq![lower_seq(cs@.subrange(i as int, i + 1 + n))]);
            } else {
                assert(char_lists(out@) =~= before + Seq::<Seq<char>>::empty());
            }
            i = i + 1 + n;
        } else if is_han_char(c) {
            let n = run_exec(cs.as_slice(), i + 1, 2);
            let seg = crate::text::slice_chars(cs.as_slice(), i, i + 1 + n);
            let chunks = split_han_chunks(seg.as_slice());
            let ghost cv = char_lists(chunks@);
            let mut k: usize = 0;
            assert(cv.skip(0) =~= cv);
            assert(char_lists(out@) + chunks_tokens(cv.skip(0)) =~= before + chunks_tokens(cv));
            while k < chunks.len()
                invariant
                    k <= chunks.len(),
                    cv == char_lists(chunks@),
                    strs(words@) == stop_words(),
                    char_lists(out@) + chunks_tokens(cv.skip(k as int)) == before + chunks_tokens(cv),
                decreases chunks.len() - k,
            {
                assert(cv.skip(k as int)[0] == chunks@[k as int]@);
                assert(cv.skip(k as int).drop_first() =~= cv.skip(k + 1));
                let ghost b2 = char_lists(out@);
                chunk_tokens_exec(chunks[k].as_slice(), &words, &mut out);
                assert(b2 + chunks_tokens(cv.skip(k as int)) =~= char_lists(out@) + chunks_tokens(cv.skip(k + 1)));
                k = k + 1;
            }
            assert(cv.skip(chunks.len() as int) =~= Seq::<Seq<char>>::empty());
            assert(char_lists(out@) + chunks_tokens(cv.skip(chunks.len() as int)) =~= char_lists(out@));
            assert(cv =~= han_chunks(seg@, Seq::empty()));
            i = i + 1 + n;
        } else {
            i = i + 1;
        }
    }
    assert(tokens_from(cs@, i as int) =~= Seq::<Seq<char>>::empty());
    let mut result: Vec<String> = Vec::new();
    let mut k: usize = 0;
    while k < out.len()
        invariant
            k <= out.len(),
            crate::target::strings_view(result@) == char_lists(out@).take(k as int),
        decreases out.len() - k,
    {
        let ghost b = result@;
        let st = string_of(out[k].as_slice());
        assert(st@ == char_lists(out@)[k as int]);
        result.push(st);
        assert(crate::target::strings_view(result@) =~= crate::target::strings_view(b).push(st@));
        assert(char_lists(out@).take(k + 1) =~= char_lists(out@).take(k as int).push(st@));
        k = k + 1;
    }
    assert(char_lists(out@).take(out.len() as int) =~= char_lists(out@));
    assert(char_lists(out@) =~= char_lists(out@) + Seq::<Seq<char>>::empty());
    result
}

/// A character that ends a clause: whitespace or sentence punctuation.
pub open spec fn is_clause_break(c: char) -> bool {
    crate::text::is_ws(c) || c == '，' || c == '。' || c == '！' || c == '？' || c == ',' || c == '.'
        || c == '!' || c == '?' || c == '；' || c == ';' || c == '：' || c == ':'
}

/// The clauses of a text: the pieces between clause breaks, empty ones included.
pub open spec fn clauses(s: Seq<char>) -> Seq<Seq<char>>
    decreases s.len(),
{
    if s.len() == 0 {
        seq![Seq::<char>::empty()]
    } else {
        let rest = clauses(s.drop_last());
        if is_clause_break(s.last()) {
            rest.push(Seq::<char>::empty())
        } else {
            rest.update(rest.len() - 1, rest.last().push(s.last()))
        }
    }
}

/// Phrases that mark a clause as a meme.
pub open spec fn meme_markers() -> Seq<Seq<char>> {
    seq![
        "绝绝子"@,
        "笑死"@,
        "谁懂啊"@,
        "太真实"@,
        "这谁顶得住"@,
        "我哭死"@,
        "绷不住"@,
        "破防了"@,
        "yyds"@,
        "YYDS"@,
        "666"@,
    ]
}

/// Some of `words` occurs in `c`.
pub open spec fn mentions_any(c: Seq<char>, words: Seq<Seq<char>>) -> bool {
    exists|k: int| 0 <= k < words.len() && crate::text::contains(c, #[trigger] words[k])
}

/// The emoji of a text, in order.
pub open spec fn emoji_of(c: Seq<char>) -> Seq<char>
    decreases c.len(),
{
    if c.len() == 0 {
        c
    } else if is_emoji(c.last()) {
        emoji_of(c.drop_last()).push(c.last())
    } else {
        emoji_of(c.drop_last())
    }
}

/// The meme candidates of one clause: the clause itself when it has 2 to 18
/// characters and holds a meme marker or an emoji or has at most 10
/// characters; then its emoji, when it has any.
pub open spec fn clause_candidates(clause: Seq<char>) -> Seq<Seq<char>> {
    let c = trim(clause);
    let whole = if 2 <= c.len() <= 18 && (mentions_any(c, meme_markers()) || emoji_of(c).len() > 0
        || c.len() <= 10) {
        seq![c]
    } else {
        Seq::empty()
    };
    if emoji_of(c).len() > 0 {
        whole.push(emoji_of(c))
    } else {
        whole
    }
}

/// The candidates of all clauses, in order.
pub open spec fn raw_candidates(cs: Seq<Seq<char>>) -> Seq<Seq<char>>
    decreases cs.len(),
{
    if cs.len() == 0 {
        Seq::empty()
    } else {
        raw_candidates(cs.drop_last()) + clause_candidates(cs.last())
    }
}

/// Inserts `x` into a strictly increasing list unless it is there.
pub open spec fn insert_unique(sorted: Seq<Seq<char>>, x: Seq<char>) -> Seq<Seq<char>>
    decreases sorted.len(),
{
    if sorted.len() == 0 {
        seq![x]
    } else if sorted[0] == x {
        sorted
    } else if key_lt(x, sorted[0]) {
        seq![x] + sorted
    } else {
        seq![sorted[0]] + insert_unique(sorted.drop_first(), x)
    }
}

/// The distinct texts of a list in increasing order (`sort` then `dedup`).
pub open spec fn sorted_unique(s: Seq<Seq<char>>) -> Seq<Seq<char>>
    decreases s.len(),
{
    if s.len() == 0 {
        Seq::empty()
    } else {
        insert_unique(sorted_unique(s.drop_last()), s.last())
    }
}

/// The meme candidates of a text, sorted and without repeats.
pub open spec fn memes_of(text: Seq<char>) -> Seq<Seq<char>> {
    sorted_unique(raw_candidates(clauses(text)))
}

fn clause_break(c: char) -> (r: bool)
    ensures
        r == is_clause_break(c),
{
    crate::text::is_whitespace(c) || c == '，' || c == '。' || c == '！' || c == '？' || c == ','
        || c == '.' || c == '!' || c == '?' || c == '；' || c == ';' || c == '：' || c == ':'
}

fn split_clauses(s: &[char]) -> (r: Vec<Vec<char>>)
    ensures
        char_lists(r@) == clauses(s@),
{
    let mut done: Vec<Vec<char>> = Vec::new();
    let mut cur: Vec<char> = Vec::new();
    let mut i: usize = 0;
    while i < s.len()
        invariant
            i <= s.len(),
            done@.len() + 1 == clauses(s@.take(i as int)).len(),
            forall|k: int| 0 <= k < done@.len() ==> #[trigger] done@[k]@ == clauses(s@.take(i as int))[k],
            cur@ == clauses(s@.take(i as int)).last(),
        decreases s.len() - i,
    {
        let ghost p = s@.take(i as int);
        assert(s@.take(i + 1).drop_last() =~= p);
        assert(s@.take(i + 1).last() == s@[i as int]);
        if clause_break(s[i]) {
            let piece = cur;
            done.push(piece);
            cur = Vec::new();
            assert(cur@ =~= Seq::<char>::empty());
        } else {
            cur.push(s[i]);
        }
        i = i + 1;
    }
    assert(s@.take(s.len() as int) =~= s@);
    done.push(cur);
    assert(char_lists(done@) =~= clauses(s@));
    done
}

fn emoji_exec(c: &[char]) -> (r: Vec<char>)
    ensures
        r@ == emoji_of(c@),
{
    let mut out: Vec<char> = Vec::new();
    let mut i: usize = 0;
    assert(c@.take(0) =~= Seq::<char>::empty());
    while i < c.len()
        invariant
            i <= c.len(),
            out@ == emoji_of(c@.take(i as int)),
        decreases c.len() - i,
    {
        assert(c@.take(i + 1).drop_last() =~= c@.take(i as int));
        assert(c@.take(i + 1).last() == c@[i as int]);
        if is_emoji_char(c[i]) {
            out.push(c[i]);
        }
        i = i + 1;
    }
    assert(c@.take(c.len() as int) =~= c@);
    out
}

fn mentions_marker(c: &[char]) -> (r: bool)
    ensures
        r == mentions_any(c@, meme_markers()),
{
    let markers = vec![
        "绝绝子",
        "笑死",
        "谁懂啊",
        "太真实",
        "这谁顶得住",
        "我哭死",
        "绷不住",
        "破防了",
        "yyds",
        "YYDS",
        "666",
    ];
    assert(strs(markers@) =~= meme_markers());
    let ghost mv = meme_markers();
    let mut i: usize = 0;
    while i < markers.len()
        invariant
            i <= markers.len(),
            strs(markers@) == mv,
            mv == meme_markers(),
            forall|k: int| 0 <= k < i ==> !crate::text::contains(c@, #[trigger] mv[k]),
        decreases markers.len() - i,
    {
        assert(mv[i as int] == markers@[i as int]@);
        if crate::text::contains_chars(c, chars_of(markers[i]).as_slice()) {
            return true;
        }
        i = i + 1;
    }
    false
}

pub(crate) fn insert_unique_exec(sorted: &mut Vec<Vec<char>>, x: Vec<char>)
    ensures
        char_lists(final(sorted)@) == insert_unique(char_lists(old(sorted)@), x@),
{
    let ghost sv = char_lists(sorted@);
    let mut j: usize = 0;
    assert(sv.skip(0) =~= sv);
    assert(sv.take(0) + insert_unique(sv.skip(0), x@) =~= insert_unique(sv, x@));
    while j < sorted.len()
        invariant
            j <= sorted.len(),
            sv == char_lists(sorted@),
            sorted@ == old(sorted)@,
            insert_unique(sv, x@) == sv.take(j as int) + insert_unique(sv.skip(j as int), x@),
        decreases sorted.len() - j,
    {
        assert(sv.skip(j as int)[0] == sorted@[j as int]@);
        if same_chars(sorted[j].as_slice(), x.as_slice()) {
            assert(sv.take(j as int) + sv.skip(j as int) =~= sv);
            return;
        }
        if key_less(x.as_slice(), sorted[j].as_slice()) {
            let ghost xv = x@;
            sorted.insert(j, x);
            assert(char_lists(sorted@) =~= sv.take(j as int) + (seq![xv] + sv.skip(j as int)));
            return;
        }
        assert(sv.skip(j as int).drop_first() =~= sv.skip(j + 1));
        assert(sv.take(j + 1) =~= sv.take(j as int).push(sv[j as int]));
        j = j + 1;
    }
    let ghost xv = x@;
    sorted.push(x);
    assert(sv.skip(j as int) =~= Seq::<Seq<char>>::empty());
    assert(sv.take(j as int) =~= sv);
    assert(char_lists(sorted@) =~= sv + seq![xv]);
}

/// The meme candidates of a text; see [`memes_of`].
pub fn meme_candidates(text: &str) -> (r: Vec<String>)
    ensures
        crate::target::strings_view(r@) == memes_of(text@),
{
    let parts = split_clauses(chars_of(text).as_slice());
    let ghost pv = char_lists(parts@);
    let mut raw: Vec<Vec<char>> = Vec::new();
    let mut i: usize = 0;
    assert(pv.take(0) =~= Seq::<Seq<char>>::empty());
    assert(char_lists(raw@) =~= Seq::<Seq<char>>::empty());
    while i < parts.len()
        invariant
            i <= parts.len(),
            pv == char_lists(parts@),
            char_lists(raw@) == raw_candidates(pv.take(i as int)),
        decreases parts.len() - i,
    {
        assert(pv.take(i + 1).drop_last() =~= pv.take(i as int));
        assert(pv.take(i + 1).last() == parts@[i as int]@);
        let ghost before = char_lists(raw@);
        let c = trim_chars(parts[i].as_slice());
        let e = emoji_exec(c.as_slice());
        let n = c.len();
        if 2 <= n && n <= 18 && (mentions_marker(c.as_slice()) || e.len() > 0 || n <= 10) {
            raw.push(crate::text::slice_chars(c.as_slice(), 0, n));
            assert(c@.subrange(0, n as int) =~= c@);
        }
        let ghost mid = char_lists(raw@);
        if e.len() > 0 {
            raw.push(e);
        }
        assert(char_lists(raw@) =~= before + clause_candidates(parts@[i as int]@));
        i = i + 1;
    }
    assert(pv.take(parts.len() as int) =~= pv);
    let ghost rv = char_lists(raw@);
    let mut sorted: Vec<Vec<char>> = Vec::new();
    let mut k: usize = 0;
    assert(rv.take(0) =~= Seq::<Seq<char>>::empty());
    assert(char_lists(sorted@) =~= Seq::<Seq<char>>::empty());
    while k < raw.len()
        invariant
            k <= raw.len(),
            rv == char_lists(raw@),
            char_lists(sorted@) == sorted_unique(rv.take(k as int)),
        decreases raw.len() - k,
    {
        assert(rv.take(k + 1).drop_last() =~= rv.take(k as int));
        assert(rv.take(k + 1).last() == raw@[k as int]@);
        let x = crate::text::slice_chars(raw[k].as_slice(), 0, raw[k].len());
        assert(x@ =~= raw@[k as int]@);
        insert_unique_exec(&mut sorted, x);
        k = k + 1;
    }
    assert(rv.take(raw.len() as int) =~= rv);
    let mut result: Vec<String> = Vec::new();
    let mut j: usize = 0;
    while j < sorted.len()
        invariant
            j <= sorted.len(),
            crate::target::strings_view(result@) == char_lists(sorted@).take(j as int),
        decreases sorted.len() - j,
    {
        let ghost b = result@;
        let st = string_of(sorted[j].as_slice());
        result.push(st);
        assert(crate::target::strings_view(result@) =~= crate::target::strings_view(b).push(st@));
        assert(char_lists(sorted@).take(j + 1) =~= char_lists(sorted@).take(j as int).push(st@));
        j = j + 1;
    }
    assert(char_lists(sorted@).take(sorted.len() as int) =~= char_lists(sorted@));
    result
}

/// Phrases that mark a text as a demand.
pub open spec fn demand_signals() -> Seq<Seq<char>> {
    seq![
        "想要"@,
        "求"@,
        "哪里"@,
        "怎么"@,
        "有没有"@,
        "能不能"@,
        "需要"@,
        "推荐"@,
        "多少钱"@,
        "链接"@,
        "教程"@,
        "怎么买"@,
        "在哪买"@,
        "同款"@,
        "价格"@,
        "求助"@,
        "如何"@,
        "问题"@,
        "希望"@,
        "建议"@,
        "支持"@,
    ]
}

/// The demand signals a text mentions, in the order of the signal list.
pub open spec fn signals_in(text: Seq<char>, signals: Seq<Seq<char>>) -> Seq<Seq<char>>
    decreases signals.len(),
{
    if signals.len() == 0 {
        Seq::empty()
    } else {
        let before = signals_in(text, signals.drop_last());
        if crate::text::contains(text, signals.last()) {
            before.push(signals.last())
        } else {
            before
        }
    }
}

/// `a + b`, saturating at `u64::MAX`.
pub open spec fn sat_add(a: u64, b: u64) -> u64 {
    if a + b > u64::MAX {
        u64::MAX
    } else {
        (a + b) as u64
    }
}

/// The weight of a record: its own, at least 1; 1 without one.
pub open spec fn record_weight(w: Option<u64>) -> u64 {
    match w {
        Some(x) => if x < 1 {
            1
        } else {
            x
        },
        None => 1,
    }
}

/// The tally of a demand: text, count, score and the signals seen.
pub type DemandTally = (Seq<char>, u64, u64, Seq<Seq<char>>);

/// `signals` merged into `seen`: those not there yet are appended in order.
pub open spec fn merge_signals(seen: Seq<Seq<char>>, signals: Seq<Seq<char>>) -> Seq<Seq<char>>
    decreases signals.len(),
{
    if signals.len() == 0 {
        seen
    } else {
        let before = merge_signals(seen, signals.drop_last());
        if before.contains(signals.last()) {
            before
        } else {
            before.push(signals.last())
        }
    }
}

/// Counts one sighting of the demand `key`.
pub open spec fn bump_demand(es: Seq<DemandTally>, key: Seq<char>, w: u64, signals: Seq<Seq<char>>) -> Seq<
    DemandTally,
>
    decreases es.len(),
{
    if es.len() == 0 {
        seq![(key, 1u64, w, merge_signals(Seq::empty(), signals))]
    } else if es[0].0 == key {
        es.update(
            0,
            (key, sat_add(es[0].1, 1), sat_add(es[0].2, w), merge_signals(es[0].3, signals)),
        )
    } else {
        seq![es[0]] + bump_demand(es.drop_first(), key, w, signals)
    }
}

/// Counts one sighting of each of `keys`, repeats included, without signals.
pub open spec fn bump_all(es: Seq<DemandTally>, keys: Seq<Seq<char>>, w: u64) -> Seq<DemandTally>
    decreases keys.len(),
{
    if keys.len() == 0 {
        es
    } else {
        bump_demand(bump_all(es, keys.drop_last(), w), keys.last(), w, Seq::empty())
    }
}

/// The tallies of the words (`memes == false`) or meme candidates of the records.
pub open spec fn tallies(records: Seq<(Seq<char>, Option<u64>)>, memes: bool) -> Seq<DemandTally>
    decreases records.len(),
{
    if records.len() == 0 {
        Seq::empty()
    } else {
        let before = tallies(records.drop_last(), memes);
        let t = crate::text::collapse_ws(records.last().0);
        if t.len() == 0 {
            before
        } else {
            bump_all(
                before,
                if memes {
                    memes_of(t)
                } else {
                    text_tokens(t)
                },
                record_weight(records.last().1),
            )
        }
    }
}

/// The tallies of the demands of the records: each text that mentions a
/// demand signal.
pub open spec fn demand_tallies(records: Seq<(Seq<char>, Option<u64>)>) -> Seq<DemandTally>
    decreases records.len(),
{
    if records.len() == 0 {
        Seq::empty()
    } else {
        let before = demand_tallies(records.drop_last());
        let t = crate::text::collapse_ws(records.last().0);
        let found = signals_in(t, demand_signals());
        if t.len() == 0 || found.len() == 0 {
            before
        } else {
            bump_demand(before, t, record_weight(records.last().1), found)
        }
    }
}

/// `a` ranks before `b`: a higher score, then a higher count, then the
/// smaller text.
pub open spec fn ranks_before(a: (Seq<char>, u64, u64), b: (Seq<char>, u64, u64)) -> bool {
    a.2 > b.2 || (a.2 == b.2 && (a.1 > b.1 || (a.1 == b.1 && key_lt(a.0, b.0))))
}

/// The tallies with a count of at least `min_count`, in order.
pub open spec fn kept(es: Seq<DemandTally>, min_count: u64) -> Seq<DemandTally>
    decreases es.len(),
{
    if es.len() == 0 {
        Seq::empty()
    } else if es.last().1 >= min_count {
        kept(es.drop_last(), min_count).push(es.last())
    } else {
        kept(es.drop_last(), min_count)
    }
}

/// The rank key of a tally.
pub open spec fn rank_key(t: DemandTally) -> (Seq<char>, u64, u64) {
    (t.0, t.1, t.2)
}

/// Inserts `x` into a ranked list before the first tally it ranks before.
pub open spec fn insert_ranked(sorted: Seq<DemandTally>, x: DemandTally) -> Seq<DemandTally>
    decreases sorted.len(),
{
    if sorted.len() == 0 {
        seq![x]
    } else if ranks_before(rank_key(x), rank_key(sorted[0])) {
        seq![x] + sorted
    } else {
        seq![sorted[0]] + insert_ranked(sorted.drop_first(), x)
    }
}

/// The tallies in rank order.
pub open spec fn rank_sort(es: Seq<DemandTally>) -> Seq<DemandTally>
    decreases es.len(),
{
    if es.len() == 0 {
        Seq::empty()
    } else {
        insert_ranked(rank_sort(es.drop_last()), es.last())
    }
}

/// The first `top` tallies in rank order among those seen `min_count` times.
pub open spec fn ranked(es: Seq<DemandTally>, top: nat, min_count: u64) -> Seq<DemandTally> {
    let r = rank_sort(kept(es, min_count));
    if top < r.len() {
        r.take(top as int)
    } else {
        r
    }
}

/// The output of a word or meme: `{"count", "score", "text"}`.
pub open spec fn word_json(t: DemandTally) -> JsonV {
    JsonV::Obj(
        seq![
            ("count"@, JsonV::UInt(t.1)),
            ("score"@, JsonV::UInt(t.2)),
            ("text"@, JsonV::Str(t.0)),
        ],
    )
}

/// The output of a demand: `{"count", "score", "signals", "text"}`.
pub open spec fn demand_json(t: DemandTally) -> JsonV {
    JsonV::Obj(
        seq![
            ("count"@, JsonV::UInt(t.1)),
            ("score"@, JsonV::UInt(t.2)),
            ("signals"@, JsonV::Arr(Seq::new(t.3.len(), |i: int| JsonV::Str(t.3[i])))),
            ("text"@, JsonV::Str(t.0)),
        ],
    )
}

/// The insights of the records: how many there are, and the top words,
/// memes and demands that were seen at least `min_count` times.
pub open spec fn analysis(records: Seq<(Seq<char>, Option<u64>)>, top: nat, min_count: u64) -> JsonV {
    let words = ranked(tallies(records, false), top, min_count);
    let memes = ranked(tallies(records, true), top, min_count);
    let demands = ranked(demand_tallies(records), top, min_count);
    JsonV::Obj(
        seq![
            ("demands"@, JsonV::Arr(demands.map_values(|t: DemandTally| demand_json(t)))),
            ("hot_memes"@, JsonV::Arr(memes.map_values(|t: DemandTally| word_json(t)))),
            ("hot_words"@, JsonV::Arr(words.map_values(|t: DemandTally| word_json(t)))),
            ("input_count"@, JsonV::UInt(records.len() as u64)),
        ],
    )
}

/// The tally of a demand while it is counted.
pub struct DemandAggregate {
    pub count: u64,
    pub score: u64,
    pub signals: Vec<String>,
}

impl DemandAggregate {
    /// One more sighting with `weight` and the signals it mentions; the
    /// totals saturate and each signal is kept once, in order of first sight.
    pub fn add(&mut self, weight: u64, signals: &Vec<String>)
        ensures
            final(self).count == sat_add(old(self).count, 1),
            final(self).score == sat_add(old(self).score, weight),
            crate::target::strings_view(final(self).signals@) == merge_signals(
                crate::target::strings_view(old(self).signals@),
                crate::target::strings_view(signals@),
            ),
    {
        self.count = self.count.saturating_add(1);
        self.score = self.score.saturating_add(weight);
        let ghost sv = crate::target::strings_view(signals@);
        let ghost start = crate::target::strings_view(self.signals@);
        let mut i: usize = 0;
        assert(sv.take(0) =~= Seq::<Seq<char>>::empty());
        while i < signals.len()
            invariant
                i <= signals.len(),
                sv == crate::target::strings_view(signals@),
                crate::target::strings_view(self.signals@) == merge_signals(start, sv.take(i as int)),
                self.count == sat_add(old(self).count, 1),
                self.score == sat_add(old(self).score, weight),
            decreases signals.len() - i,
        {
            assert(sv.take(i + 1).drop_last() =~= sv.take(i as int));
            assert(sv.take(i + 1).last() == signals@[i as int]@);
            let ghost cur = crate::target::strings_view(self.signals@);
            let mut seen = false;
            let mut k: usize = 0;
            while k < self.signals.len()
                invariant
                    k <= self.signals.len(),
                    i < signals.len(),
                    cur == crate::target::strings_view(self.signals@),
                    seen == exists|q: int| 0 <= q < k && cur[q] == signals@[i as int]@,
                decreases self.signals.len() - k,
            {
                assert(cur[k as int] == self.signals@[k as int]@);
                if crate::json::str_eq(self.signals[k].as_str(), signals[i].as_str()) {
                    seen = true;
                }
                k = k + 1;
            }
            proof {
                if seen {
                    let q = choose|q: int| 0 <= q < k && cur[q] == signals@[i as int]@;
                    assert(cur.contains(signals@[i as int]@));
                } else {
                    assert(!cur.contains(signals@[i as int]@));
                }
            }
            if !seen {
                self.signals.push(signals[i].clone());
                assert(crate::target::strings_view(self.signals@) =~= cur.push(signals@[i as int]@));
            }
            i = i + 1;
        }
        assert(sv.take(signals.len() as int) =~= sv);
    }
}

/// One text with its tally.
pub struct Ranked {
    pub text: Vec<char>,
    pub count: u64,
    pub score: u64,
    pub signals: Vec<String>,
}

/// The plain value of tallied texts.
pub open spec fn ranked_view(v: Seq<Ranked>) -> Seq<DemandTally> {
    Seq::new(
        v.len(),
        |i: int| (v[i].text@, v[i].count, v[i].score, crate::target::strings_view(v[i].signals@)),
    )
}

fn copy_strings(v: &Vec<String>) -> (r: Vec<String>)
    ensures
        crate::target::strings_view(r@) == crate::target::strings_view(v@),
{
    let mut out: Vec<String> = Vec::new();
    let mut i: usize = 0;
    while i < v.len()
        invariant
            i <= v.len(),
            crate::target::strings_view(out@) == crate::target::strings_view(v@).take(i as int),
        decreases v.len() - i,
    {
        let ghost b = out@;
        let c = v[i].clone();
        assert(c@ == v@[i as int]@);
        out.push(c);
        assert(crate::target::strings_view(out@) =~= crate::target::strings_view(b).push(v@[i as int]@));
        assert(crate::target::strings_view(v@).take(i + 1) =~= crate::target::strings_view(v@).take(
            i as int,
        ).push(v@[i as int]@));
        i = i + 1;
    }
    assert(crate::target::strings_view(v@).take(v.len() as int) =~= crate::target::strings_view(v@));
    out
}

fn bump_exec(es: &mut Vec<Ranked>, key: &[char], w: u64, signals: &Vec<String>)
    ensures
        ranked_view(final(es)@) == bump_demand(
            ranked_view(old(es)@),
            key@,
            w,
            crate::target::strings_view(signals@),
        ),
{
    let ghost ev = ranked_view(es@);
    let ghost sv = crate::target::strings_view(signals@);
    let mut i: usize = 0;
    assert(ev.skip(0) =~= ev);
    assert(ev.take(0) + bump_demand(ev.skip(0), key@, w, sv) =~= bump_demand(ev, key@, w, sv));
    while i < es.len()
        invariant
            i <= es.len(),
            ev == ranked_view(es@),
            es@ == old(es)@,
            sv == crate::target::strings_view(signals@),
            bump_demand(ev, key@, w, sv) == ev.take(i as int) + bump_demand(ev.skip(i as int), key@, w, sv),
        decreases es.len() - i,
    {
        assert(ev.skip(i as int)[0] == ev[i as int]);
        if same_chars(es[i].text.as_slice(), key) {
            let mut agg = DemandAggregate {
                count: es[i].count,
                score: es[i].score,
                signals: copy_strings(&es[i].signals),
            };
            agg.add(w, signals);
            let text = crate::text::slice_chars(key, 0, key.len());
            assert(text@ =~= key@);
            let ghost entry = (key@, agg.count, agg.score, crate::target::strings_view(agg.signals@));
            es.set(i, Ranked { text, count: agg.count, score: agg.score, signals: agg.signals });
            assert(ranked_view(es@) =~= ev.take(i as int) + ev.skip(i as int).update(0, entry));
            return;
        }
        assert(ev.skip(i as int).drop_first() =~= ev.skip(i + 1));
        assert(ev.take(i + 1) =~= ev.take(i as int).push(ev[i as int]));
        i = i + 1;
    }
    let mut agg = DemandAggregate { count: 0, score: 0, signals: Vec::new() };
    assert(crate::target::strings_view(agg.signals@) =~= Seq::<Seq<char>>::empty());
    agg.add(w, signals);
    let text = crate::text::slice_chars(key, 0, key.len());
    assert(text@ =~= key@);
    let ghost entry = (key@, agg.count, agg.score, crate::target::strings_view(agg.signals@));
    es.push(Ranked { text, count: agg.count, score: agg.score, signals: agg.signals });
    assert(ev.skip(i as int) =~= Seq::<DemandTally>::empty());
    assert(ev.take(i as int) =~= ev);
    assert(ranked_view(es@) =~= ev + seq![entry]);
}

fn bump_all_exec(es: &mut Vec<Ranked>, keys: &Vec<String>, w: u64)
    ensures
        ranked_view(final(es)@) == bump_all(ranked_view(old(es)@), crate::target::strings_view(keys@), w),
{
    let ghost kv = crate::target::strings_view(keys@);
    let none: Vec<String> = Vec::new();
    assert(crate::target::strings_view(none@) =~= Seq::<Seq<char>>::empty());
    let ghost start = ranked_view(es@);
    let mut i: usize = 0;
    assert(kv.take(0) =~= Seq::<Seq<char>>::empty());
    while i < keys.len()
        invariant
            i <= keys.len(),
            kv == crate::target::strings_view(keys@),
            crate::target::strings_view(none@) == Seq::<Seq<char>>::empty(),
            ranked_view(es@) == bump_all(start, kv.take(i as int), w),
        decreases keys.len() - i,
    {
        assert(kv.take(i + 1).drop_last() =~= kv.take(i as int));
        assert(kv.take(i + 1).last() == keys@[i as int]@);
        bump_exec(es, chars_of(keys[i].as_str()).as_slice(), w, &none);
        i = i + 1;
    }
    assert(kv.take(keys.len() as int) =~= kv);
}

fn signal_list() -> (r: Vec<&'static str>)
    ensures
        strs(r@) == demand_signals(),
{
    let v = vec![
        "想要",
        "求",
        "哪里",
        "怎么",
        "有没有",
        "能不能",
        "需要",
        "推荐",
        "多少钱",
        "链接",
        "教程",
        "怎么买",
        "在哪买",
        "同款",
        "价格",
        "求助",
        "如何",
        "问题",
        "希望",
        "建议",
        "支持",
    ];
    assert(strs(v@) =~= demand_signals());
    v
}

fn signals_exec(text: &[char]) -> (r: Vec<String>)
    ensures
        crate::target::strings_view(r@) == signals_in(text@, demand_signals()),
{
    let list = signal_list();
    let ghost lv = demand_signals();
    let mut out: Vec<String> = Vec::new();
    let mut i: usize = 0;
    assert(lv.take(0) =~= Seq::<Seq<char>>::empty());
    while i < list.len()
        invariant
            i <= list.len(),
            strs(list@) == lv,
            lv == demand_signals(),
            crate::target::strings_view(out@) == signals_in(text@, lv.take(i as int)),
        decreases list.len() - i,
    {
        assert(lv.take(i + 1).drop_last() =~= lv.take(i as int));
        assert(lv.take(i + 1).last() == list@[i as int]@);
        if crate::text::contains_chars(text, chars_of(list[i]).as_slice()) {
            let ghost b = out@;
            out.push(list[i].to_owned());
            assert(crate::target::strings_view(out@) =~= crate::target::strings_view(b).push(list@[i as int]@));
        }
        i = i + 1;
    }
    assert(lv.take(list.len() as int) =~= lv);
    out
}

/// `str::split_whitespace` joined by single spaces.
pub fn normalize_space(text: &str) -> (r: Vec<char>)
    ensures
        r@ == crate::text::collapse_ws(text@),
{
    crate::text::collapse_whitespace(chars_of(text).as_slice())
}

fn weight_of(w: Option<u64>) -> (r: u64)
    ensures
        r == record_weight(w),
{
    match w {
        Some(x) => if x < 1 {
            1
        } else {
            x
        },
        None => 1,
    }
}

fn tallies_exec(records: &Vec<TextRecord>, memes: bool) -> (r: Vec<Ranked>)
    ensures
        ranked_view(r@) == tallies(recs(records@), memes),
{
    let ghost rv = recs(records@);
    let mut es: Vec<Ranked> = Vec::new();
    let mut i: usize = 0;
    assert(rv.take(0) =~= Seq::<(Seq<char>, Option<u64>)>::empty());
    assert(ranked_view(es@) =~= Seq::<DemandTally>::empty());
    while i < records.len()
        invariant
            i <= records.len(),
            rv == recs(records@),
            ranked_view(es@) == tallies(rv.take(i as int), memes),
        decreases records.len() - i,
    {
        assert(rv.take(i + 1).drop_last() =~= rv.take(i as int));
        assert(rv.take(i + 1).last() == rv[i as int]);
        let t = normalize_space(records[i].text.as_str());
        if t.len() > 0 {
            let ts = string_of(t.as_slice());
            let keys = if memes {
                meme_candidates(ts.as_str())
            } else {
                word_tokens(ts.as_str())
            };
            bump_all_exec(&mut es, &keys, weight_of(records[i].weight));
        }
        i = i + 1;
    }
    assert(rv.take(records.len() as int) =~= rv);
    es
}

fn demand_tallies_exec(records: &Vec<TextRecord>) -> (r: Vec<Ranked>)
    ensures
        ranked_view(r@) == demand_tallies(recs(records@)),
{
    let ghost rv = recs(records@);
    let mut es: Vec<Ranked> = Vec::new();
    let mut i: usize = 0;
    assert(rv.take(0) =~= Seq::<(Seq<char>, Option<u64>)>::empty());
    assert(ranked_view(es@) =~= Seq::<DemandTally>::empty());
    while i < records.len()
        invariant
            i <= records.len(),
            rv == recs(records@),
            ranked_view(es@) == demand_tallies(rv.take(i as int)),
        decreases records.len() - i,
    {
        assert(rv.take(i + 1).drop_last() =~= rv.take(i as int));
        assert(rv.take(i + 1).last() == rv[i as int]);
        let t = normalize_space(records[i].text.as_str());
        let found = signals_exec(t.as_slice());
        if t.len() > 0 && found.len() > 0 {
            bump_exec(&mut es, t.as_slice(), weight_of(records[i].weight), &found);
        }
        i = i + 1;
    }
    assert(rv.take(records.len() as int) =~= rv);
    es
}

fn ranks_before_exec(a: &Ranked, b: &Ranked) -> (r: bool)
    ensures
        r == ranks_before((a.text@, a.count, a.score), (b.text@, b.count, b.score)),
{
    a.score > b.score || (a.score == b.score && (a.count > b.count || (a.count == b.count && key_less(
        a.text.as_slice(),
        b.text.as_slice(),
    ))))
}

/// The top tallies in rank order; see [`ranked`].
pub fn rank(es: Vec<Ranked>, top: usize, min_count: u64) -> (r: Vec<Ranked>)
    ensures
        ranked_view(r@) == ranked(ranked_view(es@), top as nat, min_count),
{
    let ghost ev = ranked_view(es@);
    let total: usize = es.len();
    let mut sorted: Vec<Ranked> = Vec::new();
    let mut rest = es;
    let ghost kv = kept(ev, min_count);
    // Take the tallies from the back, so that each one moves out once.
    let mut pending: Vec<Ranked> = Vec::new();
    while rest.len() > 0
        invariant
            ranked_view(rest@) + ranked_view(pending@).reverse() == ev,
        decreases rest.len(),
    {
        let ghost b = ranked_view(rest@);
        let ghost p = ranked_view(pending@);
        let x = rest.pop().unwrap();
        pending.push(x);
        assert(ranked_view(rest@) =~= b.drop_last());
        assert(ranked_view(pending@) =~= p.push(b.last()));
        assert(ranked_view(pending@).reverse() =~= seq![b.last()] + p.reverse());
        assert(b =~= b.drop_last().push(b.last()));
        assert(ranked_view(rest@) + ranked_view(pending@).reverse() =~= b + p.reverse());
    }
    assert(ranked_view(rest@) =~= Seq::<DemandTally>::empty());
    assert(ranked_view(pending@).reverse() =~= ev);
    let mut n: usize = 0;
    assert(ev.take(0) =~= Seq::<DemandTally>::empty());
    assert(ranked_view(sorted@) =~= rank_sort(kept(ev.take(0), min_count)));
    while pending.len() > 0
        invariant
            n + pending@.len() == ev.len(),
            ev.len() == total,
            ranked_view(pending@).reverse() == ev.skip(n as int),
            ranked_view(sorted@) == rank_sort(kept(ev.take(n as int), min_count)),
        decreases pending.len(),
    {
        let ghost p = ranked_view(pending@);
        let x = pending.pop().unwrap();
        let ghost xv = (x.text@, x.count, x.score, crate::target::strings_view(x.signals@));
        assert(p.reverse()[0] == p.last());
        assert(xv == ev[n as int]);
        assert(ranked_view(pending@) =~= p.drop_last());
        assert(ranked_view(pending@).reverse() =~= p.reverse().drop_first());
        assert(ev.take(n + 1).drop_last() =~= ev.take(n as int));
        assert(ev.take(n + 1).last() == xv);
        let ghost before_kept = kept(ev.take(n as int), min_count);
        if x.count >= min_count {
            assert(kept(ev.take(n + 1), min_count) == before_kept.push(xv));
            assert(before_kept.push(xv).drop_last() =~= before_kept);
            let ghost sv = ranked_view(sorted@);
            let mut j: usize = 0;
            let mut stop = false;
            assert(sv.skip(0) =~= sv);
            assert(sv.take(0) + insert_ranked(sv.skip(0), xv) =~= insert_ranked(sv, xv));
            while j < sorted.len() && !stop
                invariant
                    j <= sorted.len(),
                    sv == ranked_view(sorted@),
                    xv == (x.text@, x.count, x.score, crate::target::strings_view(x.signals@)),
                    stop ==> j < sorted.len() && ranks_before(rank_key(xv), rank_key(sv[j as int])),
                    insert_ranked(sv, xv) == sv.take(j as int) + insert_ranked(sv.skip(j as int), xv),
                decreases sorted.len() - j, if stop { 0int } else { 1int },
            {
                assert(sv.skip(j as int)[0] == sv[j as int]);
                if ranks_before_exec(&x, &sorted[j]) {
                    stop = true;
                } else {
                    assert(sv.skip(j as int).drop_first() =~= sv.skip(j + 1));
                    assert(sv.take(j + 1) =~= sv.take(j as int).push(sv[j as int]));
                    j = j + 1;
                }
            }
            proof {
                if j == sorted.len() {
                    assert(sv.skip(j as int) =~= Seq::<DemandTally>::empty());
                } else {
                    assert(sv.skip(j as int)[0] == sv[j as int]);
                }
            }
            sorted.insert(j, x);
            assert(ranked_view(sorted@) =~= sv.take(j as int) + seq![xv] + sv.skip(j as int));
            assert(ranked_view(sorted@) =~= sv.take(j as int) + insert_ranked(sv.skip(j as int), xv));
        } else {
            assert(kept(ev.take(n + 1), min_count) == before_kept);
        }
        n = n + 1;
    }
    assert(ev.take(n as int) =~= ev);
    let ghost all = ranked_view(sorted@);
    if top < sorted.len() {
        sorted.truncate(top);
        assert(ranked_view(sorted@) =~= all.take(top as int));
    }
    sorted
}

fn tally_json(t: &Ranked, with_signals: bool) -> (r: Json)
    ensures
        with_signals ==> r.jv() == demand_json(
            (t.text@, t.count, t.score, crate::target::strings_view(t.signals@)),
        ),
        !with_signals ==> r.jv() == word_json(
            (t.text@, t.count, t.score, crate::target::strings_view(t.signals@)),
        ),
{
    let ghost sv = crate::target::strings_view(t.signals@);
    let count = Json::UInt(t.count);
    let score = Json::UInt(t.score);
    let text = Json::Str(string_of(t.text.as_slice()));
    let ghost cv = count.jv();
    let ghost scv = score.jv();
    let ghost tv = text.jv();
    let mut es: Vec<(String, Json)> = Vec::new();
    es.push(("count".to_owned(), count));
    es.push(("score".to_owned(), score));
    if with_signals {
        let mut items: Vec<Json> = Vec::new();
        let mut i: usize = 0;
        assert(items_view(items@) =~= Seq::new(0nat, |k: int| JsonV::Str(sv[k])));
        while i < t.signals.len()
            invariant
                i <= t.signals.len(),
                sv == crate::target::strings_view(t.signals@),
                items_view(items@) == Seq::new(i as nat, |k: int| JsonV::Str(sv[k])),
            decreases t.signals.len() - i,
        {
            let ghost b = items@;
            let c = t.signals[i].clone();
            assert(c@ == sv[i as int]);
            let item = Json::Str(c);
            assert(item.jv() == JsonV::Str(sv[i as int]));
            items.push(item);
            assert(items_view(items@) =~= items_view(b).push(JsonV::Str(sv[i as int])));
            assert(items_view(items@) =~= Seq::new((i + 1) as nat, |k: int| JsonV::Str(sv[k])));
            i = i + 1;
        }
        proof {
            crate::json::lemma_arr_view(items);
        }
        let arr = Json::Arr(items);
        let ghost av = arr.jv();
        es.push(("signals".to_owned(), arr));
        es.push(("text".to_owned(), text));
        assert(crate::json::entries_view(es@) =~= seq![
            ("count"@, cv),
            ("score"@, scv),
            ("signals"@, av),
            ("text"@, tv),
        ]);
    } else {
        es.push(("text".to_owned(), text));
        assert(crate::json::entries_view(es@) =~= seq![("count"@, cv), ("score"@, scv), ("text"@, tv)]);
    }
    proof {
        crate::json::lemma_obj_view(es);
    }
    Json::Obj(es)
}

fn tallies_json(ts: &Vec<Ranked>, with_signals: bool) -> (r: Json)
    ensures
        with_signals ==> r.jv() == JsonV::Arr(ranked_view(ts@).map_values(|t: DemandTally| demand_json(t))),
        !with_signals ==> r.jv() == JsonV::Arr(ranked_view(ts@).map_values(|t: DemandTally| word_json(t))),
{
    let mut items: Vec<Json> = Vec::new();
    let mut i: usize = 0;
    while i < ts.len()
        invariant
            i <= ts.len(),
            with_signals ==> items_view(items@) == ranked_view(ts@).take(i as int).map_values(
                |t: DemandTally| demand_json(t),
            ),
            !with_signals ==> items_view(items@) == ranked_view(ts@).take(i as int).map_values(
                |t: DemandTally| word_json(t),
            ),
        decreases ts.len() - i,
    {
        let ghost b = items@;
        let j = tally_json(&ts[i], with_signals);
        items.push(j);
        assert(ranked_view(ts@)[i as int] == (ts@[i as int].text@, ts@[i as int].count, ts@[i as int].score, crate::target::strings_view(ts@[i as int].signals@)));
        assert(items_view(items@) =~= items_view(b).push(j.jv()));
        assert(ranked_view(ts@).take(i + 1) =~= ranked_view(ts@).take(i as int).push(ranked_view(ts@)[i as int]));
        assert(ranked_view(ts@).take(i + 1).map_values(|t: DemandTally| demand_json(t)) =~= ranked_view(ts@).take(i as int).map_values(|t: DemandTally| demand_json(t)).push(demand_json(ranked_view(ts@)[i as int])));
        assert(ranked_view(ts@).take(i + 1).map_values(|t: DemandTally| word_json(t)) =~= ranked_view(ts@).take(i as int).map_values(|t: DemandTally| word_json(t)).push(word_json(ranked_view(ts@)[i as int])));
        i = i + 1;
    }
    assert(ranked_view(ts@).take(ts.len() as int) =~= ranked_view(ts@));
    proof {
        crate::json::lemma_arr_view(items);
    }
    Json::Arr(items)
}

/// The insights of the records; see [`analysis`].
pub fn analyze(records: &Vec<TextRecord>, top: usize, min_count: u64) -> (r: Json)
    ensures
        r.jv() == analysis(recs(records@), top as nat, min_count),
{
    let words = rank(tallies_exec(records, false), top, min_count);
    let memes = rank(tallies_exec(records, true), top, min_count);
    let demands = rank(demand_tallies_exec(records), top, min_count);
    let mut es: Vec<(String, Json)> = Vec::new();
    es.push(("demands".to_owned(), tallies_json(&demands, true)));
    es.push(("hot_memes".to_owned(), tallies_json(&memes, false)));
    es.push(("hot_words".to_owned(), tallies_json(&words, false)));
    es.push(("input_count".to_owned(), Json::UInt(records.len() as u64)));
    proof {
        crate::json::lemma_obj_view(es);
    }
    let r = Json::Obj(es);
    assert(crate::json::entries_view(es@) =~= match analysis(recs(records@), top as nat, min_count) {
        JsonV::Obj(e) => e,
        _ => Seq::empty(),
    });
    r
}

/// `value[key]`: the value under `key`, `null` when there is none.
pub open spec fn index_of(v: JsonV, key: Seq<char>) -> JsonV {
    match v.get(key) {
        Some(x) => x,
        None => JsonV::Null,
    }
}

/// The texts of the string items of a list joined by `、`.
pub open spec fn joined_signals(items: Seq<JsonV>) -> Seq<char>
    decreases items.len(),
{
    if items.len() == 0 {
        Seq::empty()
    } else {
        let before = joined_signals(items.drop_last());
        match items.last() {
            JsonV::Str(s) => if before.len() == 0 && string_count(items.drop_last()) == 0 {
                s
            } else {
                before + "、"@ + s
            },
            _ => before,
        }
    }
}

/// The number of string items of a list.
pub open spec fn string_count(items: Seq<JsonV>) -> nat
    decreases items.len(),
{
    if items.len() == 0 {
        0
    } else {
        string_count(items.drop_last()) + match items.last() {
            JsonV::Str(_) => 1nat,
            _ => 0nat,
        }
    }
}

/// The signal note of a result line: `；信号：` and the signals, when there are any.
pub open spec fn signal_note(item: JsonV) -> Seq<char> {
    match index_of(item, "signals"@) {
        JsonV::Arr(items) => if joined_signals(items).len() > 0 {
            "；信号："@ + joined_signals(items)
        } else {
            Seq::empty()
        },
        _ => Seq::empty(),
    }
}

/// One result line of the Markdown report.
pub open spec fn item_line(item: JsonV) -> Seq<char> {
    "- "@ + (match index_of(item, "text"@) {
        JsonV::Str(s) => s,
        _ => Seq::empty(),
    }) + "（次数："@ + json_text(index_of(item, "count"@)) + "，分数："@ + json_text(
        index_of(item, "score"@),
    ) + signal_note(item) + "）\n"@
}

/// The result lines of a section.
pub open spec fn item_lines(items: Seq<JsonV>) -> Seq<char>
    decreases items.len(),
{
    if items.len() == 0 {
        Seq::empty()
    } else {
        item_lines(items.drop_last()) + item_line(items.last())
    }
}

/// One section of the Markdown report: its heading, then its lines, `- 无`
/// when it has none; only the heading when the result has no list there.
pub open spec fn section(result: JsonV, title: Seq<char>, key: Seq<char>) -> Seq<char> {
    "\n## "@ + title + "\n\n"@ + match index_of(result, key) {
        JsonV::Arr(items) => if items.len() == 0 {
            "- 无\n"@
        } else {
            item_lines(items)
        },
        _ => Seq::empty(),
    }
}

/// The Markdown report of an analysis.
pub open spec fn markdown_report(result: JsonV) -> Seq<char> {
    "# 内容洞察\n\n输入记录："@ + json_text(index_of(result, "input_count"@)) + "\n"@ + section(
        result,
        "热词"@,
        "hot_words"@,
    ) + section(result, "热梗"@, "hot_memes"@) + section(result, "需求发现"@, "demands"@)
}

fn index_exec<'a>(v: &'a Json, key: &str, null: &'a Json) -> (r: &'a Json)
    requires
        null.jv() == JsonV::Null,
    ensures
        r.jv() == index_of(v.jv(), key@),
{
    match v.get(key) {
        Some(x) => x,
        None => null,
    }
}

fn put(out: &mut Vec<char>, s: &str)
    ensures
        final(out)@ == old(out)@ + s@,
{
    crate::text::append_chars(out, chars_of(s).as_slice());
}

fn signal_note_exec(item: &Json, out: &mut Vec<char>)
    ensures
        final(out)@ == old(out)@ + signal_note(item.jv()),
{
    let null = Json::Null;
    match index_exec(item, "signals", &null) {
        Json::Arr(items) => {
            proof {
                crate::json::lemma_arr_view(*items);
            }
            let ghost iv = items_view(items@);
            let mut joined: Vec<char> = Vec::new();
            let mut n: usize = 0;
            let mut i: usize = 0;
            assert(iv.take(0) =~= Seq::<JsonV>::empty());
            while i < items.len()
                invariant
                    i <= items.len(),
                    iv == items_view(items@),
                    n <= i,
                    n == string_count(iv.take(i as int)),
                    joined@ == joined_signals(iv.take(i as int)),
                decreases items.len() - i,
            {
                assert(iv.take(i + 1).drop_last() =~= iv.take(i as int));
                assert(iv.take(i + 1).last() == items@[i as int].jv());
                match &items[i] {
                    Json::Str(s) => {
                        if n > 0 || joined.len() > 0 {
                            put(&mut joined, "、");
                        }
                        put(&mut joined, s.as_str());
                        n = n + 1;
                    },
                    _ => {},
                }
                i = i + 1;
            }
            assert(iv.take(items.len() as int) =~= iv);
            if joined.len() > 0 {
                put(out, "；信号：");
                crate::text::append_chars(out, joined.as_slice());
            }
        },
        _ => {},
    }
}

#[verifier::spinoff_prover]
#[verifier::rlimit(30)]
fn item_line_exec(item: &Json, out: &mut Vec<char>)
    ensures
        final(out)@ == old(out)@ + item_line(item.jv()),
{
    let ghost start = out@;
    let null = Json::Null;
    put(out, "- ");
    match index_exec(item, "text", &null) {
        Json::Str(s) => put(out, s.as_str()),
        _ => {},
    }
    put(out, "（次数：");
    crate::json::write_json(index_exec(item, "count", &null), out);
    put(out, "，分数：");
    crate::json::write_json(index_exec(item, "score", &null), out);
    signal_note_exec(item, out);
    put(out, "）\n");
    assert(out@ =~= start + item_line(item.jv()));
}

fn section_exec(result: &Json, title: &str, key: &str, out: &mut Vec<char>)
    ensures
        final(out)@ == old(out)@ + section(result.jv(), title@, key@),
{
    let ghost start = out@;
    let null = Json::Null;
    put(out, "\n## ");
    put(out, title);
    put(out, "\n\n");
    let ghost head = out@;
    match index_exec(result, key, &null) {
        Json::Arr(items) => {
            proof {
                crate::json::lemma_arr_view(*items);
            }
            if items.len() == 0 {
                put(out, "- 无\n");
            } else {
                let ghost iv = items_view(items@);
                let mut i: usize = 0;
                assert(iv.take(0) =~= Seq::<JsonV>::empty());
                assert(out@ =~= head + item_lines(iv.take(0)));
                while i < items.len()
                    invariant
                        i <= items.len(),
                        iv == items_view(items@),
                        out@ == head + item_lines(iv.take(i as int)),
                    decreases items.len() - i,
                {
                    assert(iv.take(i + 1).drop_last() =~= iv.take(i as int));
                    assert(iv.take(i + 1).last() == items@[i as int].jv());
                    item_line_exec(&items[i], out);
                    i = i + 1;
                }
                assert(iv.take(items.len() as int) =~= iv);
            }
        },
        _ => {},
    }
    assert(out@ =~= start + section(result.jv(), title@, key@));
}

/// The Markdown report of an analysis; see [`markdown_report`].
pub fn render_markdown(result: &Json) -> (r: String)
    ensures
        r@ == markdown_report(result.jv()),
{
    let null = Json::Null;
    let mut out: Vec<char> = Vec::new();
    put(&mut out, "# 内容洞察\n\n输入记录：");
    crate::json::write_json(index_exec(result, "input_count", &null), &mut out);
    put(&mut out, "\n");
    section_exec(result, "热词", "hot_words", &mut out);
    section_exec(result, "热梗", "hot_memes", &mut out);
    section_exec(result, "需求发现", "demands", &mut out);
    assert(out@ =~= markdown_report(result.jv()));
    string_of(out.as_slice())
}

/// The output formats of the text analysis.
#[derive(Clone, Copy, Debug, PartialEq, Eq, Structural)]
pub enum OutputFormat {
    Json,
    Markdown,
}

/// The options of the text analysis command.
pub struct InsightsArgs {
    /// Input file path, or `-` for standard input.
    pub input: String,
    /// Most entries per list.
    pub top: usize,
    /// Fewest occurrences an entry needs.
    pub min_count: u64,
    pub format: OutputFormat,
    /// Output file; standard output otherwise.
    pub output: Option<String>,
}

} // verus!
