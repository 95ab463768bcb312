//! Offline statistics of crawler metadata: the works it lists, their counts,
//! groups and order. Scores and averages, which are floating point, are
//! computed by the caller.
use vstd::prelude::*;
use crate::crawler::alias2;
use crate::insights::{insert_unique, insert_unique_exec, sorted_unique};
use crate::json::{items_view, key_less, key_lt, lookup, parse_json, parsed_json, Json, JsonV};
use crate::target::strings_view;
use crate::text::{chars_of, decimal, decimal_chars, parse_u64, parse_u64_spec, string_of, trim, trim_chars};

verus! {

broadcast use vstd::string::group_string_axioms;

/// The metric by which the top works are ranked.
#[derive(Clone, Copy, Debug, PartialEq, Eq, Structural)]
pub enum SortMetric {
    Score,
    Interactions,
    Likes,
    Comments,
    Collects,
    Shares,
    Duration,
    Latest,
}

impl SortMetric {
    /// The command-line name of a metric.
    pub open spec fn name(self) -> Seq<char> {
        match self {
            SortMetric::Score => "score"@,
            SortMetric::Interactions => "interactions"@,
            SortMetric::Likes => "likes"@,
            SortMetric::Comments => "comments"@,
            SortMetric::Collects => "collects"@,
            SortMetric::Shares => "shares"@,
            SortMetric::Duration => "duration"@,
            SortMetric::Latest => "latest"@,
        }
    }

    /// The command-line name of the metric.
    pub fn as_str(self) -> (r: &'static str)
        ensures
            r@ == self.name(),
    {
        match self {
            SortMetric::Score => "score",
            SortMetric::Interactions => "interactions",
            SortMetric::Likes => "likes",
            SortMetric::Comments => "comments",
            SortMetric::Collects => "collects",
            SortMetric::Shares => "shares",
            SortMetric::Duration => "duration",
            SortMetric::Latest => "latest",
        }
    }
}

/// The output format of the statistics.
#[derive(Clone, Copy, Debug, PartialEq, Eq, Structural)]
pub enum OutputFormat {
    Json,
    Markdown,
}

/// The options of the statistics command.
pub struct StatsArgs {
    /// JSON file path, or `-` for standard input.
    pub input: String,
    /// Keep only works whose `author_nickname` is exactly this.
    pub author: Option<String>,
    pub sort: SortMetric,
    /// Most top works to list.
    pub top: usize,
    pub format: OutputFormat,
    /// Output file; standard output otherwise.
    pub output: Option<String>,
}

/// One work of the input.
pub struct Item {
    pub id: String,
    pub desc: String,
    pub author_nickname: String,
    pub author_uid: String,
    pub likes: Option<u64>,
    pub comments: Option<u64>,
    pub collects: Option<u64>,
    pub shares: Option<u64>,
    pub duration_ms: Option<u64>,
    pub publish_time: Option<u64>,
    pub topics: Vec<String>,
}

/// The plain value of a work.
pub struct ItemView {
    pub id: Seq<char>,
    pub desc: Seq<char>,
    pub author_nickname: Seq<char>,
    pub author_uid: Seq<char>,
    pub likes: Option<u64>,
    pub comments: Option<u64>,
    pub collects: Option<u64>,
    pub shares: Option<u64>,
    pub duration_ms: Option<u64>,
    pub publish_time: Option<u64>,
    pub topics: Seq<Seq<char>>,
}

impl Item {
    /// The plain value of the work.
    pub open spec fn iv(self) -> ItemView {
        ItemView {
            id: self.id@,
            desc: self.desc@,
            author_nickname: self.author_nickname@,
            author_uid: self.author_uid@,
            likes: self.likes,
            comments: self.comments,
            collects: self.collects,
            shares: self.shares,
            duration_ms: self.duration_ms,
            publish_time: self.publish_time,
            topics: strings_view(self.topics@),
        }
    }
}

/// `a + b`, saturating at `u64::MAX`.
pub open spec fn sat(a: u64, b: u64) -> u64 {
    if a + b > u64::MAX {
        u64::MAX
    } else {
        (a + b) as u64
    }
}

/// A present count, or 0.
pub open spec fn or_zero(v: Option<u64>) -> u64 {
    match v {
        Some(n) => n,
        None => 0,
    }
}

/// Likes, comments, collects and shares added up, saturating; missing ones count 0.
pub open spec fn interactions_of(i: ItemView) -> u64 {
    sat(sat(sat(or_zero(i.likes), or_zero(i.comments)), or_zero(i.collects)), or_zero(i.shares))
}

impl Item {
    /// The interactions of the work; see [`interactions_of`].
    pub fn interactions(&self) -> (r: u64)
        ensures
            r == interactions_of(self.iv()),
    {
        let likes = match self.likes {
            Some(n) => n,
            None => 0,
        };
        let comments = match self.comments {
            Some(n) => n,
            None => 0,
        };
        let collects = match self.collects {
            Some(n) => n,
            None => 0,
        };
        let shares = match self.shares {
            Some(n) => n,
            None => 0,
        };
        likes.saturating_add(comments).saturating_add(collects).saturating_add(shares)
    }
}

/// The values that may hold works: the items of an array; the items of the
/// `items`, `aweme_list` and `data` lists of an object, or else the object.
pub open spec fn candidates(v: JsonV) -> Seq<JsonV> {
    match v {
        JsonV::Arr(vs) => vs,
        JsonV::Obj(es) => {
            let a = match lookup(es, "items"@) {
                Some(JsonV::Arr(x)) => x,
                _ => Seq::empty(),
            };
            let b = match lookup(es, "aweme_list"@) {
                Some(JsonV::Arr(x)) => x,
                _ => Seq::empty(),
            };
            let c = match lookup(es, "data"@) {
                Some(JsonV::Arr(x)) => x,
                _ => Seq::empty(),
            };
            let found = (lookup(es, "items"@) matches Some(JsonV::Arr(_))) || (lookup(es, "aweme_list"@) matches Some(JsonV::Arr(_))) || (lookup(es, "data"@) matches Some(JsonV::Arr(_)));
            if found {
                a + b + c
            } else {
                seq![v]
            }
        },
        _ => Seq::empty(),
    }
}

/// A count: a non-negative integer, or the trimmed text of one.
pub open spec fn count_value(v: JsonV) -> Option<u64> {
    match v {
        JsonV::UInt(n) => Some(n),
        JsonV::Str(s) => parse_u64_spec(trim(s)),
        _ => None,
    }
}

/// The first count under one of `keys`.
pub open spec fn first_count(es: Seq<(Seq<char>, JsonV)>, keys: Seq<Seq<char>>) -> Option<u64>
    decreases keys.len(),
{
    if keys.len() == 0 {
        None
    } else {
        match lookup(es, keys[0]) {
            Some(v) => match count_value(v) {
                Some(n) => Some(n),
                None => first_count(es, keys.drop_first()),
            },
            None => first_count(es, keys.drop_first()),
        }
    }
}

/// The first non-blank text (trimmed) under one of `keys`.
pub open spec fn first_text(es: Seq<(Seq<char>, JsonV)>, keys: Seq<Seq<char>>) -> Option<Seq<char>>
    decreases keys.len(),
{
    if keys.len() == 0 {
        None
    } else {
        match lookup(es, keys[0]) {
            Some(JsonV::Str(s)) => if trim(s).len() > 0 {
                Some(trim(s))
            } else {
                first_text(es, keys.drop_first())
            },
            _ => first_text(es, keys.drop_first()),
        }
    }
}

/// The first ID under one of `keys`: a non-blank text (trimmed), or a
/// non-negative integer as decimal text.
pub open spec fn first_id(es: Seq<(Seq<char>, JsonV)>, keys: Seq<Seq<char>>) -> Option<Seq<char>>
    decreases keys.len(),
{
    if keys.len() == 0 {
        None
    } else {
        match lookup(es, keys[0]) {
            Some(JsonV::Str(s)) => if trim(s).len() > 0 {
                Some(trim(s))
            } else {
                first_id(es, keys.drop_first())
            },
            Some(JsonV::UInt(n)) => Some(decimal(n as nat)),
            _ => first_id(es, keys.drop_first()),
        }
    }
}

/// A text without its leading `#` characters.
pub open spec fn strip_hashes(s: Seq<char>) -> Seq<char>
    decreases s.len(),
{
    if s.len() > 0 && s[0] == '#' {
        strip_hashes(s.drop_first())
    } else {
        s
    }
}

/// The topic names of the tags, in order (repeats included).
pub open spec fn tag_names(tags: Seq<JsonV>) -> Seq<Seq<char>>
    decreases tags.len(),
{
    if tags.len() == 0 {
        Seq::empty()
    } else {
        let before = tag_names(tags.drop_last());
        match alias2(tags.last(), "tag_name"@, "tagName"@) {
            Some(JsonV::Str(n)) => if trim(n).len() > 0 {
                before.push(strip_hashes(trim(n)))
            } else {
                before
            },
            _ => before,
        }
    }
}

/// The distinct topics of a work, in order.
pub open spec fn topics_of(v: Option<JsonV>) -> Seq<Seq<char>> {
    match v {
        Some(JsonV::Arr(tags)) => sorted_unique(tag_names(tags)),
        _ => Seq::empty(),
    }
}

/// A text, or the empty text.
pub open spec fn text_or_empty(s: Option<Seq<char>>) -> Seq<char> {
    match s {
        Some(t) => t,
        None => Seq::empty(),
    }
}

/// The work that a value describes: an object with a non-empty ID.
pub open spec fn item_of(v: JsonV) -> Option<ItemView> {
    match v {
        JsonV::Obj(es) => match first_id(es, seq!["id"@, "aweme_id"@, "awemeId"@]) {
            Some(id) => if id.len() > 0 {
                Some(
                    ItemView {
                        id,
                        desc: text_or_empty(first_text(es, seq!["desc"@])),
                        author_nickname: text_or_empty(
                            first_text(es, seq!["author_nickname"@, "authorNickname"@]),
                        ),
                        author_uid: text_or_empty(first_text(es, seq!["author_uid"@, "authorUid"@])),
                        likes: first_count(es, seq!["digg_count"@, "diggCount"@]),
                        comments: first_count(es, seq!["comment_count"@, "commentCount"@]),
                        collects: first_count(es, seq!["collect_count"@, "collectCount"@]),
                        shares: first_count(es, seq!["share_count"@, "shareCount"@]),
                        duration_ms: first_count(es, seq!["duration"@]),
                        publish_time: first_count(es, seq!["time"@, "create_time"@, "createTime"@]),
                        topics: topics_of(alias2(v, "text_extra"@, "textExtra"@)),
                    },
                )
            } else {
                None
            },
            None => None,
        },
        _ => None,
    }
}

/// The works among the values, in order.
pub open spec fn items_of(vs: Seq<JsonV>) -> Seq<ItemView>
    decreases vs.len(),
{
    if vs.len() == 0 {
        Seq::empty()
    } else {
        match item_of(vs.last()) {
            Some(i) => items_of(vs.drop_last()).push(i),
            None => items_of(vs.drop_last()),
        }
    }
}

/// The plain values of works.
pub open spec fn item_views(v: Seq<Item>) -> Seq<ItemView> {
    Seq::new(v.len(), |i: int| v[i].iv())
}

/// The views of string slices.
pub open spec fn key_views(v: Seq<&str>) -> Seq<Seq<char>> {
    Seq::new(v.len(), |i: int| v[i]@)
}

/// A count; see [`count_value`].
pub fn non_negative_integer(v: &Json) -> (r: Option<u64>)
    ensures
        r == count_value(v.jv()),
{
    match v {
        Json::UInt(n) => Some(*n),
        Json::Str(s) => parse_u64(trim_chars(chars_of(s.as_str()).as_slice()).as_slice()),
        _ => None,
    }
}

fn first_count_exec(obj: &Json, keys: Vec<&str>) -> (r: Option<u64>)
    requires
        obj.jv() is Obj,
    ensures
        r == first_count(obj.jv()->Obj_0, key_views(keys@)),
{
    let ghost es = obj.jv()->Obj_0;
    let ghost kv = key_views(keys@);
    let mut i: usize = 0;
    assert(kv.skip(0) =~= kv);
    while i < keys.len()
        invariant
            i <= keys.len(),
            kv == key_views(keys@),
            obj.jv() == JsonV::Obj(es),
            first_count(es, kv) == first_count(es, kv.skip(i as int)),
        decreases keys.len() - i,
    {
        assert(kv.skip(i as int)[0] == keys@[i as int]@);
        assert(kv.skip(i as int).drop_first() =~= kv.skip(i + 1));
        match obj.get(keys[i]) {
            Some(v) => match non_negative_integer(v) {
                Some(n) => return Some(n),
                None => {},
            },
            None => {},
        }
        i = i + 1;
    }
    None
}

fn first_text_exec(obj: &Json, keys: Vec<&str>) -> (r: Option<Vec<char>>)
    requires
        obj.jv() is Obj,
    ensures
        r matches Some(t) ==> first_text(obj.jv()->Obj_0, key_views(keys@)) == Some(t@),
        r is None ==> first_text(obj.jv()->Obj_0, key_views(keys@)) is None,
{
    let ghost es = obj.jv()->Obj_0;
    let ghost kv = key_views(keys@);
    let mut i: usize = 0;
    assert(kv.skip(0) =~= kv);
    while i < keys.len()
        invariant
            i <= keys.len(),
            kv == key_views(keys@),
            obj.jv() == JsonV::Obj(es),
            first_text(es, kv) == first_text(es, kv.skip(i as int)),
        decreases keys.len() - i,
    {
        assert(kv.skip(i as int)[0] == keys@[i as int]@);
        assert(kv.skip(i as int).drop_first() =~= kv.skip(i + 1));
        match obj.get(keys[i]) {
            Some(Json::Str(s)) => {
                let t = trim_chars(chars_of(s.as_str()).as_slice());
                if t.len() > 0 {
                    return Some(t);
                }
            },
            _ => {},
        }
        i = i + 1;
    }
    None
}

fn first_id_exec(obj: &Json) -> (r: Option<Vec<char>>)
    requires
        obj.jv() is Obj,
    ensures
        r matches Some(t) ==> first_id(obj.jv()->Obj_0, seq!["id"@, "aweme_id"@, "awemeId"@]) == Some(t@),
        r is None ==> first_id(obj.jv()->Obj_0, seq!["id"@, "aweme_id"@, "awemeId"@]) is None,
{
    let keys = vec!["id", "aweme_id", "awemeId"];
    let ghost es = obj.jv()->Obj_0;
    let ghost kv = seq!["id"@, "aweme_id"@, "awemeId"@];
    assert(key_views(keys@) =~= kv);
    let mut i: usize = 0;
    assert(kv.skip(0) =~= kv);
    while i < keys.len()
        invariant
            i <= keys.len(),
            kv == key_views(keys@),
            kv == seq!["id"@, "aweme_id"@, "awemeId"@],
            obj.jv() == JsonV::Obj(es),
            first_id(es, kv) == first_id(es, kv.skip(i as int)),
        decreases keys.len() - i,
    {
        assert(kv.skip(i as int)[0] == keys@[i as int]@);
        assert(kv.skip(i as int).drop_first() =~= kv.skip(i + 1));
        match obj.get(keys[i]) {
            Some(Json::Str(s)) => {
                let t = trim_chars(chars_of(s.as_str()).as_slice());
                if t.len() > 0 {
                    return Some(t);
                }
            },
            Some(Json::UInt(n)) => return Some(decimal_chars(*n)),
            _ => {},
        }
        i = i + 1;
    }
    None
}

fn strip_hashes_exec(s: &[char]) -> (r: Vec<char>)
    ensures
        r@ == strip_hashes(s@),
{
    let mut i: usize = 0;
    assert(s@.skip(0) =~= s@);
    while i < s.len() && s[i] == '#'
        invariant
            i <= s.len(),
            strip_hashes(s@) == strip_hashes(s@.skip(i as int)),
        decreases s.len() - i,
    {
        assert(s@.skip(i as int)[0] == s@[i as int]);
        assert(s@.skip(i as int).drop_first() =~= s@.skip(i + 1));
        i = i + 1;
    }
    let r = crate::text::slice_chars(s, i, s.len());
    assert(r@ =~= s@.skip(i as int));
    r
}

fn topics_exec(v: Option<&Json>) -> (r: Vec<String>)
    ensures
        strings_view(r@) == topics_of(
            match v {
                Some(x) => Some(x.jv()),
                None => None,
            },
        ),
{
    let mut sorted: Vec<Vec<char>> = Vec::new();
    match v {
        Some(Json::Arr(tags)) => {
            proof {
                crate::json::lemma_arr_view(*tags);
            }
            let ghost tv = items_view(tags@);
            let mut i: usize = 0;
            assert(tv.take(0) =~= Seq::<JsonV>::empty());
            assert(crate::insights::char_lists(sorted@) =~= sorted_unique(tag_names(tv.take(0))));
            while i < tags.len()
                invariant
                    i <= tags.len(),
                    tv == items_view(tags@),
                    crate::insights::char_lists(sorted@) == sorted_unique(tag_names(tv.take(i as int))),
                decreases tags.len() - i,
            {
                assert(tv.take(i + 1).drop_last() =~= tv.take(i as int));
                assert(tv.take(i + 1).last() == tags@[i as int].jv());
                match crate::crawler::alias2_exec(&tags[i], "tag_name", "tagName") {
                    Some(Json::Str(n)) => {
                        let t = trim_chars(chars_of(n.as_str()).as_slice());
                        if t.len() > 0 {
                            let name = strip_hashes_exec(t.as_slice());
                            let ghost before = tag_names(tv.take(i as int));
                            insert_unique_exec(&mut sorted, name);
                            assert(tag_names(tv.take(i + 1)) == before.push(strip_hashes(t@)));
                            assert(before.push(strip_hashes(t@)).drop_last() =~= before);
                        }
                    },
                    _ => {},
                }
                i = i + 1;
            }
            assert(tv.take(tags.len() as int) =~= tv);
        },
        _ => {},
    }
    let mut out: Vec<String> = Vec::new();
    let mut k: usize = 0;
    while k < sorted.len()
        invariant
            k <= sorted.len(),
            strings_view(out@) == crate::insights::char_lists(sorted@).take(k as int),
        decreases sorted.len() - k,
    {
        let st = string_of(sorted[k].as_slice());
        let ghost b = out@;
        out.push(st);
        assert(strings_view(out@) =~= strings_view(b).push(st@));
        assert(crate::insights::char_lists(sorted@).take(k + 1) =~= crate::insights::char_lists(sorted@).take(k as int).push(st@));
        k = k + 1;
    }
    assert(crate::insights::char_lists(sorted@).take(sorted.len() as int) =~= crate::insights::char_lists(sorted@));
    proof {
        if !(v matches Some(Json::Arr(_))) {
            assert(crate::insights::char_lists(sorted@) =~= Seq::<Seq<char>>::empty());
        }
    }
    out
}

fn text_or_empty_exec(t: Option<Vec<char>>) -> (r: String)
    ensures
        r@ == text_or_empty(
            match t {
                Some(x) => Some(x@),
                None => None,
            },
        ),
{
    match t {
        Some(x) => string_of(x.as_slice()),
        None => String::new(),
    }
}

/// The work that a value describes; see [`item_of`].
pub fn parse_item(v: &Json) -> (r: Option<Item>)
    ensures
        r matches Some(i) ==> item_of(v.jv()) == Some(i.iv()),
        r is None ==> item_of(v.jv()) is None,
{
    match v {
        Json::Obj(_) => {},
        _ => return None,
    }
    let id = match first_id_exec(v) {
        Some(id) => id,
        None => return None,
    };
    if id.len() == 0 {
        return None;
    }
    let k_desc = vec!["desc"];
    assert(key_views(k_desc@) =~= seq!["desc"@]);
    let k_nick = vec!["author_nickname", "authorNickname"];
    assert(key_views(k_nick@) =~= seq!["author_nickname"@, "authorNickname"@]);
    let k_uid = vec!["author_uid", "authorUid"];
    assert(key_views(k_uid@) =~= seq!["author_uid"@, "authorUid"@]);
    let k_likes = vec!["digg_count", "diggCount"];
    assert(key_views(k_likes@) =~= seq!["digg_count"@, "diggCount"@]);
    let k_comments = vec!["comment_count", "commentCount"];
    assert(key_views(k_comments@) =~= seq!["comment_count"@, "commentCount"@]);
    let k_collects = vec!["collect_count", "collectCount"];
    assert(key_views(k_collects@) =~= seq!["collect_count"@, "collectCount"@]);
    let k_shares = vec!["share_count", "shareCount"];
    assert(key_views(k_shares@) =~= seq!["share_count"@, "shareCount"@]);
    let k_duration = vec!["duration"];
    assert(key_views(k_duration@) =~= seq!["duration"@]);
    let k_time = vec!["time", "create_time", "createTime"];
    assert(key_views(k_time@) =~= seq!["time"@, "create_time"@, "createTime"@]);
    let item = Item {
        id: string_of(id.as_slice()),
        desc: text_or_empty_exec(first_text_exec(v, k_desc)),
        author_nickname: text_or_empty_exec(first_text_exec(v, k_nick)),
        author_uid: text_or_empty_exec(first_text_exec(v, k_uid)),
        likes: first_count_exec(v, k_likes),
        comments: first_count_exec(v, k_comments),
        collects: first_count_exec(v, k_collects),
        shares: first_count_exec(v, k_shares),
        duration_ms: first_count_exec(v, k_duration),
        publish_time: first_count_exec(v, k_time),
        topics: topics_exec(crate::crawler::alias2_exec(v, "text_extra", "textExtra")),
    };
    Some(item)
}

fn candidates_exec(v: &Json) -> (r: Vec<&Json>)
    ensures
        Seq::new(r@.len(), |i: int| r@[i].jv()) == candidates(v.jv()),
{
    let mut out: Vec<&Json> = Vec::new();
    match v {
        Json::Arr(vs) => {
            proof {
                crate::json::lemma_arr_view(*vs);
            }
            let mut i: usize = 0;
            while i < vs.len()
                invariant
                    i <= vs.len(),
                    out@.len() == i,
                    forall|k: int| 0 <= k < i ==> (#[trigger] out@[k]).jv() == vs@[k].jv(),
                decreases vs.len() - i,
            {
                out.push(&vs[i]);
                i = i + 1;
            }
            assert(Seq::new(out@.len(), |i: int| out@[i].jv()) =~= items_view(vs@));
        },
        Json::Obj(_) => {
            let mut found = false;
            let keys = vec!["items", "aweme_list", "data"];
            let mut k: usize = 0;
            let ghost es = v.jv()->Obj_0;
            let ghost lists = Seq::new(
                3,
                |j: int|
                    match lookup(es, key_views(keys@)[j]) {
                        Some(JsonV::Arr(x)) => x,
                        _ => Seq::empty(),
                    },
            );
            assert(key_views(keys@) =~= seq!["items"@, "aweme_list"@, "data"@]);
            while k < 3
                invariant
                    k <= 3,
                    keys@.len() == 3,
                    v.jv() == JsonV::Obj(es),
                    key_views(keys@) == seq!["items"@, "aweme_list"@, "data"@],
                    lists == Seq::new(
                        3,
                        |j: int|
                            match lookup(es, key_views(keys@)[j]) {
                                Some(JsonV::Arr(x)) => x,
                                _ => Seq::empty(),
                            },
                    ),
                    found == exists|j: int| 0 <= j < k && (lookup(es, #[trigger] key_views(keys@)[j]) matches Some(JsonV::Arr(_))),
                    Seq::new(out@.len(), |i: int| out@[i].jv()) == if k == 0 {
                        Seq::<JsonV>::empty()
                    } else if k == 1 {
                        lists[0]
                    } else if k == 2 {
                        lists[0] + lists[1]
                    } else {
                        lists[0] + lists[1] + lists[2]
                    },
                decreases 3 - k,
            {
                let ghost before = Seq::new(out@.len(), |i: int| out@[i].jv());
                assert(key_views(keys@)[k as int] == keys@[k as int]@);
                match v.get(keys[k]) {
                    Some(Json::Arr(xs)) => {
                        proof {
                            crate::json::lemma_arr_view(*xs);
                        }
                        found = true;
                        let mut i: usize = 0;
                        while i < xs.len()
                            invariant
                                i <= xs.len(),
                                Seq::new(out@.len(), |q: int| out@[q].jv()) == before + items_view(xs@).take(i as int),
                            decreases xs.len() - i,
                        {
                            let ghost b2 = Seq::new(out@.len(), |q: int| out@[q].jv());
                            out.push(&xs[i]);
                            assert(Seq::new(out@.len(), |q: int| out@[q].jv()) =~= b2.push(xs@[i as int].jv()));
                            assert(items_view(xs@).take(i + 1) =~= items_view(xs@).take(i as int).push(xs@[i as int].jv()));
                            i = i + 1;
                        }
                        assert(items_view(xs@).take(xs.len() as int) =~= items_view(xs@));
                        assert(lists[k as int] == items_view(xs@));
                    },
                    _ => {
                        assert(lists[k as int] =~= Seq::<JsonV>::empty());
                        assert(before + lists[k as int] =~= before);
                    },
                }
                k = k + 1;
            }
            if !found {
                out.push(v);
                assert(Seq::new(out@.len(), |i: int| out@[i].jv()) =~= seq![v.jv()]);
            } else {
                proof {
                    let j = choose|j: int| 0 <= j < 3 && (lookup(es, #[trigger] key_views(keys@)[j]) matches Some(JsonV::Arr(_)));
                    assert(j == 0 || j == 1 || j == 2);
                }
            }
        },
        _ => {},
    }
    out
}

/// The works of the input document, in order.
pub fn parse_items(v: &Json) -> (r: Vec<Item>)
    ensures
        item_views(r@) == items_of(candidates(v.jv())),
{
    let cs = candidates_exec(v);
    let ghost cv = candidates(v.jv());
    let mut out: Vec<Item> = Vec::new();
    let mut i: usize = 0;
    assert(cv.take(0) =~= Seq::<JsonV>::empty());
    assert(item_views(out@) =~= Seq::<ItemView>::empty());
    while i < cs.len()
        invariant
            i <= cs.len(),
            cv == Seq::new(cs@.len(), |k: int| cs@[k].jv()),
            item_views(out@) == items_of(cv.take(i as int)),
        decreases cs.len() - i,
    {
        assert(cv.take(i + 1).drop_last() =~= cv.take(i as int));
        assert(cv.take(i + 1).last() == cs@[i as int].jv());
        match parse_item(cs[i]) {
            Some(item) => {
                let ghost b = item_views(out@);
                let ghost iv = item.iv();
                out.push(item);
                assert(item_views(out@) =~= b.push(iv));
            },
            None => {},
        }
        i = i + 1;
    }
    assert(cv.take(cs.len() as int) =~= cv);
    out
}

/// The works whose `author_nickname` is exactly `author` (all without one).
pub open spec fn matching(items: Seq<ItemView>, author: Option<Seq<char>>) -> Seq<ItemView>
    decreases items.len(),
{
    if items.len() == 0 {
        Seq::empty()
    } else {
        let before = matching(items.drop_last(), author);
        let keep = match author {
            Some(name) => items.last().author_nickname == name,
            None => true,
        };
        if keep {
            before.push(items.last())
        } else {
            before
        }
    }
}

/// The works of an input and how many there were before the author filter;
/// or why there are none to count.
pub open spec fn selection(input: Seq<char>, author: Option<Seq<char>>) -> Result<
    (nat, Seq<ItemView>),
    Seq<char>,
> {
    match parsed_json(input) {
        Err(e) => Err("输入不是合法 JSON: "@ + e),
        Ok(v) => {
            let items = items_of(candidates(v));
            let m = matching(items, author);
            if items.len() == 0 {
                Err("输入中没有有效作品记录（作品需要 id 或 aweme_id）"@)
            } else if m.len() == 0 {
                Err(
                    match author {
                        Some(name) => "没有 author_nickname 精确匹配“"@ + name + "”的作品"@,
                        None => "输入中没有有效作品记录"@,
                    },
                )
            } else {
                Ok((items.len(), m))
            }
        },
    }
}

/// The works to count, and how many works the input held.
pub struct Selection {
    pub input_count: usize,
    pub items: Vec<Item>,
}

/// The plain value of an optional text.
pub open spec fn opt_text(a: Option<&str>) -> Option<Seq<char>> {
    match a {
        Some(s) => Some(s@),
        None => None,
    }
}

/// Parses the input and keeps the works of `author`; see [`selection`].
pub fn select_items(input: &str, author: Option<&str>) -> (r: Result<Selection, String>)
    ensures
        match selection(input@, opt_text(author)) {
            Ok((n, items)) => r matches Ok(sel) && sel.input_count == n && item_views(sel.items@) == items,
            Err(e) => r matches Err(m) && m@ == e,
        },
{
    let value = match parse_json(input) {
        Ok(v) => v,
        Err(e) => return Err(crate::text::join_str("输入不是合法 JSON: ", e.as_str())),
    };
    let items = parse_items(&value);
    let ghost iv = item_views(items@);
    let input_count = items.len();
    let mut matched: Vec<Item> = Vec::new();
    let mut i: usize = 0;
    let mut rest = items;
    let mut taken: Vec<Item> = Vec::new();
    // Move the works out from the back, then filter them in order.
    while rest.len() > 0
        invariant
            item_views(rest@) + item_views(taken@).reverse() == iv,
        decreases rest.len(),
    {
        let ghost b = item_views(rest@);
        let ghost t = item_views(taken@);
        let x = rest.pop().unwrap();
        taken.push(x);
        assert(item_views(rest@) =~= b.drop_last());
        assert(item_views(taken@) =~= t.push(b.last()));
        assert(item_views(taken@).reverse() =~= seq![b.last()] + t.reverse());
        assert(b =~= b.drop_last().push(b.last()));
        assert(item_views(rest@) + item_views(taken@).reverse() =~= b + t.reverse());
    }
    assert(item_views(rest@) =~= Seq::<ItemView>::empty());
    assert(item_views(taken@).reverse() =~= iv);
    assert(iv.take(0) =~= Seq::<ItemView>::empty());
    assert(item_views(matched@) =~= Seq::<ItemView>::empty());
    while taken.len() > 0
        invariant
            i + taken@.len() == iv.len(),
            iv.len() == input_count,
            item_views(taken@).reverse() == iv.skip(i as int),
            item_views(matched@) == matching(iv.take(i as int), opt_text(author)),
        decreases taken.len(),
    {
        let ghost t = item_views(taken@);
        let x = taken.pop().unwrap();
        let ghost xv = x.iv();
        assert(t.reverse()[0] == t.last());
        assert(xv == iv[i as int]);
        assert(item_views(taken@) =~= t.drop_last());
        assert(item_views(taken@).reverse() =~= t.reverse().drop_first());
        assert(iv.take(i + 1).drop_last() =~= iv.take(i as int));
        assert(iv.take(i + 1).last() == xv);
        let keep = match author {
            Some(name) => crate::json::str_eq(x.author_nickname.as_str(), name),
            None => true,
        };
        if keep {
            let ghost b = item_views(matched@);
            matched.push(x);
            assert(item_views(matched@) =~= b.push(xv));
        }
        i = i + 1;
    }
    assert(iv.take(i as int) =~= iv);
    if input_count == 0 {
        return Err("输入中没有有效作品记录（作品需要 id 或 aweme_id）".to_owned());
    }
    if matched.len() == 0 {
        return Err(
            match author {
                Some(name) => {
                    let head = crate::text::join_str("没有 author_nickname 精确匹配“", name);
                    crate::text::join_str(head.as_str(), "”的作品")
                },
                None => "输入中没有有效作品记录".to_owned(),
            },
        );
    }
    Ok(Selection { input_count, items: matched })
}

/// The largest present value of a metric (0 when none is present):
/// likes (0), comments (1), collects (2) or shares (3).
pub open spec fn metric(i: ItemView, m: u8) -> Option<u64> {
    if m == 0 {
        i.likes
    } else if m == 1 {
        i.comments
    } else if m == 2 {
        i.collects
    } else if m == 3 {
        i.shares
    } else if m == 4 {
        i.duration_ms
    } else {
        i.publish_time
    }
}

/// The largest present value of metric `m` among the works; 0 if none.
pub open spec fn max_metric(items: Seq<ItemView>, m: u8) -> u64
    decreases items.len(),
{
    if items.len() == 0 {
        0
    } else {
        let before = max_metric(items.drop_last(), m);
        match metric(items.last(), m) {
            Some(v) => if v > before {
                v
            } else {
                before
            },
            None => before,
        }
    }
}

/// The largest likes, comments, collects and shares of the works.
pub struct Maxima {
    pub likes: u64,
    pub comments: u64,
    pub collects: u64,
    pub shares: u64,
}

fn max_metric_exec(items: &Vec<Item>, m: u8) -> (r: u64)
    ensures
        r == max_metric(item_views(items@), m),
{
    let ghost iv = item_views(items@);
    let mut best: u64 = 0;
    let mut i: usize = 0;
    assert(iv.take(0) =~= Seq::<ItemView>::empty());
    while i < items.len()
        invariant
            i <= items.len(),
            iv == item_views(items@),
            best == max_metric(iv.take(i as int), m),
        decreases items.len() - i,
    {
        assert(iv.take(i + 1).drop_last() =~= iv.take(i as int));
        assert(iv.take(i + 1).last() == items@[i as int].iv());
        let v = metric_exec(&items[i], m);
        match v {
            Some(x) => if x > best {
                best = x;
            },
            None => {},
        }
        i = i + 1;
    }
    assert(iv.take(items.len() as int) =~= iv);
    best
}

fn metric_exec(i: &Item, m: u8) -> (r: Option<u64>)
    ensures
        r == metric(i.iv(), m),
{
    if m == 0 {
        i.likes
    } else if m == 1 {
        i.comments
    } else if m == 2 {
        i.collects
    } else if m == 3 {
        i.shares
    } else if m == 4 {
        i.duration_ms
    } else {
        i.publish_time
    }
}

/// The largest value of each metric among the works.
pub fn metric_maxima(items: &Vec<Item>) -> (r: Maxima)
    ensures
        r.likes == max_metric(item_views(items@), 0),
        r.comments == max_metric(item_views(items@), 1),
        r.collects == max_metric(item_views(items@), 2),
        r.shares == max_metric(item_views(items@), 3),
{
    Maxima {
        likes: max_metric_exec(items, 0),
        comments: max_metric_exec(items, 1),
        collects: max_metric_exec(items, 2),
        shares: max_metric_exec(items, 3),
    }
}

/// A work with its interactions and its score in hundredths (0 to 10000).
pub struct ScoredItem {
    pub item: Item,
    pub interactions: u64,
    pub score_centi: u64,
}

/// The plain value of a scored work.
pub open spec fn scored_view(s: ScoredItem) -> (ItemView, u64, u64) {
    (s.item.iv(), s.interactions, s.score_centi)
}

/// The plain values of scored works.
pub open spec fn scored_views(v: Seq<ScoredItem>) -> Seq<(ItemView, u64, u64)> {
    Seq::new(v.len(), |i: int| scored_view(v[i]))
}

/// Pairs each work with its interactions and its score (hundredths), in order.
#[verifier::spinoff_prover]
#[verifier::rlimit(30)]
pub fn score_items(items: Vec<Item>, centis: &Vec<u64>) -> (r: Vec<ScoredItem>)
    requires
        centis.len() == items.len(),
    ensures
        scored_views(r@) == Seq::new(
            items@.len(),
            |i: int| (items@[i].iv(), interactions_of(items@[i].iv()), centis@[i]),
        ),
{
    let ghost iv = items@;
    let ghost want = Seq::new(items@.len(), |i: int| (items@[i].iv(), interactions_of(items@[i].iv()), centis@[i]));
    let n = items.len();
    let mut rest = items;
    let mut back: Vec<ScoredItem> = Vec::new();
    let mut k: usize = n;
    while rest.len() > 0
        invariant
            rest@.len() == k,
            k <= n,
            n == iv.len(),
            centis@.len() == n,
            rest@ == iv.take(k as int),
            scored_views(back@).reverse() == want.skip(k as int),
            want == Seq::new(iv.len(), |i: int| (iv[i].iv(), interactions_of(iv[i].iv()), centis@[i])),
        decreases rest.len(),
    {
        let x = rest.pop().unwrap();
        k = k - 1;
        assert(x == iv[k as int]);
        let interactions = x.interactions();
        let ghost b = scored_views(back@);
        back.push(ScoredItem { item: x, interactions, score_centi: centis[k] });
        assert(scored_views(back@) =~= b.push(want[k as int]));
        assert(scored_views(back@).reverse() =~= seq![want[k as int]] + b.reverse());
        assert(want.skip(k as int) =~= seq![want[k as int]] + want.skip(k + 1));
        assert(rest@ =~= iv.take(k as int));
    }
    let mut out: Vec<ScoredItem> = Vec::new();
    let mut j: usize = 0;
    assert(want.skip(0) =~= want);
    while back.len() > 0
        invariant
            j + back@.len() == n,
            n == want.len(),
            scored_views(back@).reverse() == want.skip(j as int),
            scored_views(out@) == want.take(j as int),
        decreases back.len(),
    {
        let ghost b = scored_views(back@);
        let x = back.pop().unwrap();
        assert(b.reverse()[0] == b.last());
        assert(scored_view(x) == want[j as int]);
        assert(scored_views(back@) =~= b.drop_last());
        assert(scored_views(back@).reverse() =~= b.reverse().drop_first());
        let ghost o = scored_views(out@);
        out.push(x);
        assert(scored_views(out@) =~= o.push(want[j as int]));
        assert(want.take(j + 1) =~= want.take(j as int).push(want[j as int]));
        j = j + 1;
    }
    assert(want.take(n as int) =~= want);
    out
}

/// The value a metric ranks a scored work by.
pub open spec fn primary(s: (ItemView, u64, u64), sort: SortMetric) -> u64 {
    match sort {
        SortMetric::Score => s.2,
        SortMetric::Interactions => s.1,
        SortMetric::Likes => or_zero(s.0.likes),
        SortMetric::Comments => or_zero(s.0.comments),
        SortMetric::Collects => or_zero(s.0.collects),
        SortMetric::Shares => or_zero(s.0.shares),
        SortMetric::Duration => or_zero(s.0.duration_ms),
        SortMetric::Latest => or_zero(s.0.publish_time),
    }
}

/// `a` goes before `b`: a larger metric, then more interactions, then the
/// smaller ID.
pub open spec fn goes_before(a: (ItemView, u64, u64), b: (ItemView, u64, u64), sort: SortMetric) -> bool {
    primary(a, sort) > primary(b, sort) || (primary(a, sort) == primary(b, sort) && (a.1 > b.1 || (a.1
        == b.1 && key_lt(a.0.id, b.0.id))))
}

/// Inserts `x` after every work it does not go before.
pub open spec fn insert_scored(sorted: Seq<(ItemView, u64, u64)>, x: (ItemView, u64, u64), sort: SortMetric) -> Seq<
    (ItemView, u64, u64),
>
    decreases sorted.len(),
{
    if sorted.len() == 0 {
        seq![x]
    } else if goes_before(x, sorted[0], sort) {
        seq![x] + sorted
    } else {
        seq![sorted[0]] + insert_scored(sorted.drop_first(), x, sort)
    }
}

/// The works in order of `sort`, equal ones kept in input order.
pub open spec fn sort_scored(s: Seq<(ItemView, u64, u64)>, sort: SortMetric) -> Seq<(ItemView, u64, u64)>
    decreases s.len(),
{
    if s.len() == 0 {
        Seq::empty()
    } else {
        insert_scored(sort_scored(s.drop_last(), sort), s.last(), sort)
    }
}

fn primary_exec(s: &ScoredItem, sort: SortMetric) -> (r: u64)
    ensures
        r == primary(scored_view(*s), sort),
{
    let v = match sort {
        SortMetric::Score => Some(s.score_centi),
        SortMetric::Interactions => Some(s.interactions),
        SortMetric::Likes => s.item.likes,
        SortMetric::Comments => s.item.comments,
        SortMetric::Collects => s.item.collects,
        SortMetric::Shares => s.item.shares,
        SortMetric::Duration => s.item.duration_ms,
        SortMetric::Latest => s.item.publish_time,
    };
    match v {
        Some(x) => x,
        None => 0,
    }
}

fn goes_before_exec(a: &ScoredItem, b: &ScoredItem, sort: SortMetric) -> (r: bool)
    ensures
        r == goes_before(scored_view(*a), scored_view(*b), sort),
{
    let pa = primary_exec(a, sort);
    let pb = primary_exec(b, sort);
    pa > pb || (pa == pb && (a.interactions > b.interactions || (a.interactions == b.interactions
        && key_less(chars_of(a.item.id.as_str()).as_slice(), chars_of(b.item.id.as_str()).as_slice()))))
}

/// Orders the works by `sort`; see [`sort_scored`].
pub fn sort_items(items: Vec<ScoredItem>, sort: SortMetric) -> (r: Vec<ScoredItem>)
    ensures
        scored_views(r@) == sort_scored(scored_views(items@), sort),
{
    let ghost ev = scored_views(items@);
    let total: usize = items.len();
    let mut rest = items;
    let mut pending: Vec<ScoredItem> = Vec::new();
    while rest.len() > 0
        invariant
            scored_views(rest@) + scored_views(pending@).reverse() == ev,
        decreases rest.len(),
    {
        let ghost b = scored_views(rest@);
        let ghost p = scored_views(pending@);
        let x = rest.pop().unwrap();
        pending.push(x);
        assert(scored_views(rest@) =~= b.drop_last());
        assert(scored_views(pending@) =~= p.push(b.last()));
        assert(scored_views(pending@).reverse() =~= seq![b.last()] + p.reverse());
        assert(b =~= b.drop_last().push(b.last()));
        assert(scored_views(rest@) + scored_views(pending@).reverse() =~= b + p.reverse());
    }
    assert(scored_views(rest@) =~= Seq::<(ItemView, u64, u64)>::empty());
    assert(scored_views(pending@).reverse() =~= ev);
    let mut sorted: Vec<ScoredItem> = Vec::new();
    let mut n: usize = 0;
    assert(ev.take(0) =~= Seq::<(ItemView, u64, u64)>::empty());
    assert(scored_views(sorted@) =~= sort_scored(ev.take(0), sort));
    while pending.len() > 0
        invariant
            n + pending@.len() == ev.len(),
            ev.len() == total,
            scored_views(pending@).reverse() == ev.skip(n as int),
            scored_views(sorted@) == sort_scored(ev.take(n as int), sort),
        decreases pending.len(),
    {
        let ghost p = scored_views(pending@);
        let x = pending.pop().unwrap();
        let ghost xv = scored_view(x);
        assert(p.reverse()[0] == p.last());
        assert(xv == ev[n as int]);
        assert(scored_views(pending@) =~= p.drop_last());
        assert(scored_views(pending@).reverse() =~= p.reverse().drop_first());
        assert(ev.take(n + 1).drop_last() =~= ev.take(n as int));
        assert(ev.take(n + 1).last() == xv);
        let ghost sv = scored_views(sorted@);
        let mut j: usize = 0;
        let mut stop = false;
        assert(sv.skip(0) =~= sv);
        assert(sv.take(0) + insert_scored(sv.skip(0), xv, sort) =~= insert_scored(sv, xv, sort));
        while j < sorted.len() && !stop
            invariant
                j <= sorted.len(),
                sv == scored_views(sorted@),
                xv == scored_view(x),
                stop ==> j < sorted.len() && goes_before(xv, sv[j as int], sort),
                insert_scored(sv, xv, sort) == sv.take(j as int) + insert_scored(sv.skip(j as int), xv, sort),
            decreases sorted.len() - j, if stop { 0int } else { 1int },
        {
            assert(sv.skip(j as int)[0] == sv[j as int]);
            if goes_before_exec(&x, &sorted[j], sort) {
                stop = true;
            } else {
                assert(sv.skip(j as int).drop_first() =~= sv.skip(j + 1));
                assert(sv.take(j + 1) =~= sv.take(j as int).push(sv[j as int]));
                j = j + 1;
            }
        }
        proof {
            if j == sorted.len() {
                assert(sv.skip(j as int) =~= Seq::<(ItemView, u64, u64)>::empty());
            } else {
                assert(sv.skip(j as int)[0] == sv[j as int]);
            }
        }
        sorted.insert(j, x);
        assert(scored_views(sorted@) =~= sv.take(j as int) + seq![xv] + sv.skip(j as int));
        assert(scored_views(sorted@) =~= sv.take(j as int) + insert_scored(sv.skip(j as int), xv, sort));
        n = n + 1;
    }
    assert(ev.take(n as int) =~= ev);
    sorted
}

/// The present values of metric `m` (see [`metric`]) of the works, in order;
/// for `m == 6`, the interactions of every work.
pub open spec fn metric_values(items: Seq<(ItemView, u64, u64)>, m: u8) -> Seq<u64>
    decreases items.len(),
{
    if items.len() == 0 {
        Seq::empty()
    } else {
        let before = metric_values(items.drop_last(), m);
        if m == 6 {
            before.push(items.last().1)
        } else {
            match metric(items.last().0, m) {
                Some(v) => before.push(v),
                None => before,
            }
        }
    }
}

/// The present values of a metric of the scored works; see [`metric_values`].
pub fn values_of(items: &Vec<ScoredItem>, m: u8) -> (r: Vec<u64>)
    ensures
        r@ == metric_values(scored_views(items@), m),
{
    let ghost iv = scored_views(items@);
    let mut out: Vec<u64> = Vec::new();
    let mut i: usize = 0;
    assert(iv.take(0) =~= Seq::<(ItemView, u64, u64)>::empty());
    while i < items.len()
        invariant
            i <= items.len(),
            iv == scored_views(items@),
            out@ == metric_values(iv.take(i as int), m),
        decreases items.len() - i,
    {
        assert(iv.take(i + 1).drop_last() =~= iv.take(i as int));
        assert(iv.take(i + 1).last() == scored_view(items@[i as int]));
        if m == 6 {
            out.push(items[i].interactions);
        } else {
            match metric_exec(&items[i].item, m) {
                Some(v) => out.push(v),
                None => {},
            }
        }
        i = i + 1;
    }
    assert(iv.take(items.len() as int) =~= iv);
    out
}

/// The values added up, saturating at `u64::MAX`.
pub open spec fn sat_sum(values: Seq<u64>) -> u64
    decreases values.len(),
{
    if values.len() == 0 {
        0
    } else {
        sat(sat_sum(values.drop_last()), values.last())
    }
}

/// The values added up in 128 bits (saturating, which they never reach).
pub open spec fn wide_sum_of(values: Seq<u64>) -> u128
    decreases values.len(),
{
    if values.len() == 0 {
        0
    } else {
        let before = wide_sum_of(values.drop_last());
        if before + values.last() > u128::MAX {
            u128::MAX
        } else {
            (before + values.last()) as u128
        }
    }
}

/// The values added up, saturating at `u64::MAX`.
pub fn saturated_sum(values: &Vec<u64>) -> (r: u64)
    ensures
        r == sat_sum(values@),
{
    let mut total: u64 = 0;
    let mut i: usize = 0;
    assert(values@.take(0) =~= Seq::<u64>::empty());
    while i < values.len()
        invariant
            i <= values.len(),
            total == sat_sum(values@.take(i as int)),
        decreases values.len() - i,
    {
        assert(values@.take(i + 1).drop_last() =~= values@.take(i as int));
        total = total.saturating_add(values[i]);
        i = i + 1;
    }
    assert(values@.take(values.len() as int) =~= values@);
    total
}

/// The values added up in 128 bits; see [`wide_sum_of`].
pub fn wide_sum(values: &Vec<u64>) -> (r: u128)
    ensures
        r == wide_sum_of(values@),
{
    let mut total: u128 = 0;
    let mut i: usize = 0;
    assert(values@.take(0) =~= Seq::<u64>::empty());
    while i < values.len()
        invariant
            i <= values.len(),
            total == wide_sum_of(values@.take(i as int)),
        decreases values.len() - i,
    {
        assert(values@.take(i + 1).drop_last() =~= values@.take(i as int));
        total = total.saturating_add(values[i] as u128);
        i = i + 1;
    }
    assert(values@.take(values.len() as int) =~= values@);
    total
}

/// Inserts `x` into an ascending list after the values not larger.
pub open spec fn insert_asc(sorted: Seq<u64>, x: u64) -> Seq<u64>
    decreases sorted.len(),
{
    if sorted.len() == 0 {
        seq![x]
    } else if x < sorted[0] {
        seq![x] + sorted
    } else {
        seq![sorted[0]] + insert_asc(sorted.drop_first(), x)
    }
}

/// The values in ascending order.
pub open spec fn sorted_asc(s: Seq<u64>) -> Seq<u64>
    decreases s.len(),
{
    if s.len() == 0 {
        Seq::empty()
    } else {
        insert_asc(sorted_asc(s.drop_last()), s.last())
    }
}

/// The one or two middle values of the sorted values (the same value twice
/// for an odd count); `None` for no values. Their mean is the median.
pub open spec fn middle_values(values: Seq<u64>) -> Option<(u64, u64)> {
    let s = sorted_asc(values);
    let m = s.len() / 2;
    if s.len() == 0 {
        None
    } else if s.len() % 2 == 0 {
        Some((s[m - 1], s[m as int]))
    } else {
        Some((s[m as int], s[m as int]))
    }
}

/// Sorting keeps the number of values.
pub proof fn lemma_sorted_len(s: Seq<u64>)
    ensures
        sorted_asc(s).len() == s.len(),
    decreases s.len(),
{
    if s.len() > 0 {
        lemma_sorted_len(s.drop_last());
        lemma_insert_asc_len(sorted_asc(s.drop_last()), s.last());
    }
}

proof fn lemma_insert_asc_len(s: Seq<u64>, x: u64)
    ensures
        insert_asc(s, x).len() == s.len() + 1,
    decreases s.len(),
{
    if s.len() > 0 && x >= s[0] {
        lemma_insert_asc_len(s.drop_first(), x);
    }
}

/// The middle values of the values; see [`middle_values`].
pub fn median_parts(values: &Vec<u64>) -> (r: Option<(u64, u64)>)
    ensures
        r == middle_values(values@),
{
    let mut sorted: Vec<u64> = Vec::new();
    let mut i: usize = 0;
    assert(values@.take(0) =~= Seq::<u64>::empty());
    while i < values.len()
        invariant
            i <= values.len(),
            sorted@ == sorted_asc(values@.take(i as int)),
        decreases values.len() - i,
    {
        assert(values@.take(i + 1).drop_last() =~= values@.take(i as int));
        assert(values@.take(i + 1).last() == values@[i as int]);
        let x = values[i];
        let ghost sv = sorted@;
        let mut j: usize = 0;
        let mut stop = false;
        assert(sv.skip(0) =~= sv);
        assert(sv.take(0) + insert_asc(sv.skip(0), x) =~= insert_asc(sv, x));
        while j < sorted.len() && !stop
            invariant
                j <= sorted.len(),
                sv == sorted@,
                stop ==> j < sorted.len() && x < sv[j as int],
                insert_asc(sv, x) == sv.take(j as int) + insert_asc(sv.skip(j as int), x),
            decreases sorted.len() - j, if stop { 0int } else { 1int },
        {
            assert(sv.skip(j as int)[0] == sv[j as int]);
            if x < sorted[j] {
                stop = true;
            } else {
                assert(sv.skip(j as int).drop_first() =~= sv.skip(j + 1));
                assert(sv.take(j + 1) =~= sv.take(j as int).push(sv[j as int]));
                j = j + 1;
            }
        }
        proof {
            if j == sorted.len() {
                assert(sv.skip(j as int) =~= Seq::<u64>::empty());
            } else {
                assert(sv.skip(j as int)[0] == sv[j as int]);
            }
        }
        sorted.insert(j, x);
        assert(sorted@ =~= sv.take(j as int) + insert_asc(sv.skip(j as int), x));
        i = i + 1;
    }
    assert(values@.take(values.len() as int) =~= values@);
    let n = sorted.len();
    if n == 0 {
        None
    } else if n % 2 == 0 {
        Some((sorted[n / 2 - 1], sorted[n / 2]))
    } else {
        Some((sorted[n / 2], sorted[n / 2]))
    }
}

/// The smallest and largest of the values; `None` for no values.
pub open spec fn range_of(values: Seq<u64>) -> Option<(u64, u64)>
    decreases values.len(),
{
    if values.len() == 0 {
        None
    } else {
        let x = values.last();
        match range_of(values.drop_last()) {
            Some((lo, hi)) => Some((if x < lo { x } else { lo }, if x > hi { x } else { hi })),
            None => Some((x, x)),
        }
    }
}

/// The smallest and largest of the values; see [`range_of`].
pub fn min_max(values: &Vec<u64>) -> (r: Option<(u64, u64)>)
    ensures
        r == range_of(values@),
{
    let mut r: Option<(u64, u64)> = None;
    let mut i: usize = 0;
    assert(values@.take(0) =~= Seq::<u64>::empty());
    while i < values.len()
        invariant
            i <= values.len(),
            r == range_of(values@.take(i as int)),
        decreases values.len() - i,
    {
        assert(values@.take(i + 1).drop_last() =~= values@.take(i as int));
        let x = values[i];
        r = match r {
            Some((lo, hi)) => Some((if x < lo { x } else { lo }, if x > hi { x } else { hi })),
            None => Some((x, x)),
        };
        i = i + 1;
    }
    assert(values@.take(values.len() as int) =~= values@);
    r
}

/// The duration bucket of a work: under 60 s (0), 60 to 300 s (1), longer (2).
pub open spec fn bucket_of(ms: u64) -> u8 {
    if ms < 60000 {
        0
    } else if ms < 300000 {
        1
    } else {
        2
    }
}

/// The interactions of the works with a duration in bucket `b`, in order.
pub open spec fn bucket_values(items: Seq<(ItemView, u64, u64)>, b: u8) -> Seq<u64>
    decreases items.len(),
{
    if items.len() == 0 {
        Seq::empty()
    } else {
        let before = bucket_values(items.drop_last(), b);
        match items.last().0.duration_ms {
            Some(d) => if bucket_of(d) == b {
                before.push(items.last().1)
            } else {
                before
            },
            None => before,
        }
    }
}

/// The interactions of the works in a duration bucket; see [`bucket_values`].
pub fn bucket_interactions(items: &Vec<ScoredItem>, b: u8) -> (r: Vec<u64>)
    ensures
        r@ == bucket_values(scored_views(items@), b),
{
    let ghost iv = scored_views(items@);
    let mut out: Vec<u64> = Vec::new();
    let mut i: usize = 0;
    assert(iv.take(0) =~= Seq::<(ItemView, u64, u64)>::empty());
    while i < items.len()
        invariant
            i <= items.len(),
            iv == scored_views(items@),
            out@ == bucket_values(iv.take(i as int), b),
        decreases items.len() - i,
    {
        assert(iv.take(i + 1).drop_last() =~= iv.take(i as int));
        assert(iv.take(i + 1).last() == scored_view(items@[i as int]));
        match items[i].item.duration_ms {
            Some(d) => {
                let k: u8 = if d < 60000 {
                    0
                } else if d < 300000 {
                    1
                } else {
                    2
                };
                if k == b {
                    out.push(items[i].interactions);
                }
            },
            None => {},
        }
        i = i + 1;
    }
    assert(iv.take(items.len() as int) =~= iv);
    out
}

/// The totals of an author's works.
pub struct GroupAggregate {
    pub count: u64,
    pub likes: u64,
    pub comments: u64,
    pub collects: u64,
    pub shares: u64,
    pub interactions: u64,
    /// Interactions summed in 128 bits, for the average.
    pub interactions_sum: u128,
}

/// The plain value of an author's totals: nickname, UID, count, likes,
/// comments, collects, shares, interactions and the 128-bit interaction sum.
pub type GroupView = (Seq<char>, Seq<char>, u64, u64, u64, u64, u64, u64, u128);

/// `a + b` in 128 bits, saturating.
pub open spec fn sat128(a: u128, b: u64) -> u128 {
    if a + b > u128::MAX {
        u128::MAX
    } else {
        (a + b) as u128
    }
}

/// Adds one work to an author's totals; every total saturates.
pub open spec fn add_work(g: GroupView, w: (ItemView, u64, u64)) -> GroupView {
    (
        g.0,
        g.1,
        sat(g.2, 1),
        sat(g.3, or_zero(w.0.likes)),
        sat(g.4, or_zero(w.0.comments)),
        sat(g.5, or_zero(w.0.collects)),
        sat(g.6, or_zero(w.0.shares)),
        sat(g.7, w.1),
        sat128(g.8, w.1),
    )
}

/// Adds a work to the group of its author (nickname and UID), which is new
/// at the end when the author was not seen yet.
pub open spec fn add_author(gs: Seq<GroupView>, w: (ItemView, u64, u64)) -> Seq<GroupView>
    decreases gs.len(),
{
    if gs.len() == 0 {
        seq![add_work((w.0.author_nickname, w.0.author_uid, 0, 0, 0, 0, 0, 0, 0), w)]
    } else if gs[0].0 == w.0.author_nickname && gs[0].1 == w.0.author_uid {
        gs.update(0, add_work(gs[0], w))
    } else {
        seq![gs[0]] + add_author(gs.drop_first(), w)
    }
}

/// The authors of the works that name one, in order of first appearance.
pub open spec fn author_groups(items: Seq<(ItemView, u64, u64)>) -> Seq<GroupView>
    decreases items.len(),
{
    if items.len() == 0 {
        Seq::empty()
    } else {
        let before = author_groups(items.drop_last());
        if items.last().0.author_nickname.len() == 0 {
            before
        } else {
            add_author(before, items.last())
        }
    }
}

/// Author `a` goes before `b`: more interactions, then more works, then the
/// smaller nickname, then the smaller UID.
pub open spec fn author_before(a: GroupView, b: GroupView) -> bool {
    a.7 > b.7 || (a.7 == b.7 && (a.2 > b.2 || (a.2 == b.2 && (key_lt(a.0, b.0) || (a.0 == b.0
        && key_lt(a.1, b.1))))))
}

/// Inserts an author before the first one it goes before.
pub open spec fn insert_author(sorted: Seq<GroupView>, x: GroupView) -> Seq<GroupView>
    decreases sorted.len(),
{
    if sorted.len() == 0 {
        seq![x]
    } else if author_before(x, sorted[0]) {
        seq![x] + sorted
    } else {
        seq![sorted[0]] + insert_author(sorted.drop_first(), x)
    }
}

/// The authors in order.
pub open spec fn sort_authors(s: Seq<GroupView>) -> Seq<GroupView>
    decreases s.len(),
{
    if s.len() == 0 {
        Seq::empty()
    } else {
        insert_author(sort_authors(s.drop_last()), s.last())
    }
}

/// An author's totals.
pub struct AuthorGroup {
    pub nickname: String,
    pub uid: String,
    pub totals: GroupAggregate,
}

/// The plain value of an author's totals.
pub open spec fn group_view(g: AuthorGroup) -> GroupView {
    (
        g.nickname@,
        g.uid@,
        g.totals.count,
        g.totals.likes,
        g.totals.comments,
        g.totals.collects,
        g.totals.shares,
        g.totals.interactions,
        g.totals.interactions_sum,
    )
}

/// The plain values of authors' totals.
pub open spec fn group_views(v: Seq<AuthorGroup>) -> Seq<GroupView> {
    Seq::new(v.len(), |i: int| group_view(v[i]))
}

/// Adds one work to an author's totals; see [`add_work`].
pub fn add_to_group(group: &mut GroupAggregate, item: &ScoredItem)
    ensures
        (final(group).count, final(group).likes, final(group).comments, final(group).collects, final(group).shares, final(group).interactions, final(group).interactions_sum) == {
            let g = add_work(
                (Seq::empty(), Seq::empty(), old(group).count, old(group).likes, old(group).comments, old(group).collects, old(group).shares, old(group).interactions, old(group).interactions_sum),
                scored_view(*item),
            );
            (g.2, g.3, g.4, g.5, g.6, g.7, g.8)
        },
{
    let likes = match item.item.likes {
        Some(n) => n,
        None => 0,
    };
    let comments = match item.item.comments {
        Some(n) => n,
        None => 0,
    };
    let collects = match item.item.collects {
        Some(n) => n,
        None => 0,
    };
    let shares = match item.item.shares {
        Some(n) => n,
        None => 0,
    };
    group.count = group.count.saturating_add(1);
    group.likes = group.likes.saturating_add(likes);
    group.comments = group.comments.saturating_add(comments);
    group.collects = group.collects.saturating_add(collects);
    group.shares = group.shares.saturating_add(shares);
    group.interactions = group.interactions.saturating_add(item.interactions);
    group.interactions_sum = group.interactions_sum.saturating_add(item.interactions as u128);
}

fn copy_group(g: &GroupAggregate) -> (r: GroupAggregate)
    ensures
        r == *g,
{
    GroupAggregate {
        count: g.count,
        likes: g.likes,
        comments: g.comments,
        collects: g.collects,
        shares: g.shares,
        interactions: g.interactions,
        interactions_sum: g.interactions_sum,
    }
}

fn add_author_exec(gs: &mut Vec<AuthorGroup>, item: &ScoredItem)
    ensures
        group_views(final(gs)@) == add_author(group_views(old(gs)@), scored_view(*item)),
{
    let ghost gv = group_views(gs@);
    let ghost w = scored_view(*item);
    let mut i: usize = 0;
    assert(gv.skip(0) =~= gv);
    assert(gv.take(0) + add_author(gv.skip(0), w) =~= add_author(gv, w));
    while i < gs.len()
        invariant
            i <= gs.len(),
            gv == group_views(gs@),
            gs@ == old(gs)@,
            w == scored_view(*item),
            add_author(gv, w) == gv.take(i as int) + add_author(gv.skip(i as int), w),
        decreases gs.len() - i,
    {
        assert(gv.skip(i as int)[0] == gv[i as int]);
        if crate::json::str_eq(gs[i].nickname.as_str(), item.item.author_nickname.as_str())
            && crate::json::str_eq(gs[i].uid.as_str(), item.item.author_uid.as_str()) {
            let mut totals = copy_group(&gs[i].totals);
            add_to_group(&mut totals, item);
            let g = AuthorGroup { nickname: gs[i].nickname.clone(), uid: gs[i].uid.clone(), totals };
            let ghost entry = group_view(g);
            assert(entry == add_work(gv[i as int], w));
            gs.set(i, g);
            assert(group_views(gs@) =~= gv.take(i as int) + gv.skip(i as int).update(0, entry));
            return;
        }
        assert(gv.skip(i as int).drop_first() =~= gv.skip(i + 1));
        assert(gv.take(i + 1) =~= gv.take(i as int).push(gv[i as int]));
        i = i + 1;
    }
    let mut totals = GroupAggregate {
        count: 0,
        likes: 0,
        comments: 0,
        collects: 0,
        shares: 0,
        interactions: 0,
        interactions_sum: 0,
    };
    add_to_group(&mut totals, item);
    let g = AuthorGroup {
        nickname: item.item.author_nickname.clone(),
        uid: item.item.author_uid.clone(),
        totals,
    };
    let ghost entry = group_view(g);
    gs.push(g);
    assert(gv.skip(i as int) =~= Seq::<GroupView>::empty());
    assert(gv.take(i as int) =~= gv);
    assert(group_views(gs@) =~= gv + seq![entry]);
}

fn author_before_exec(a: &AuthorGroup, b: &AuthorGroup) -> (r: bool)
    ensures
        r == author_before(group_view(*a), group_view(*b)),
{
    let an = chars_of(a.nickname.as_str());
    let bn = chars_of(b.nickname.as_str());
    a.totals.interactions > b.totals.interactions || (a.totals.interactions == b.totals.interactions
        && (a.totals.count > b.totals.count || (a.totals.count == b.totals.count && (key_less(
        an.as_slice(),
        bn.as_slice(),
    ) || (crate::json::same_chars(an.as_slice(), bn.as_slice()) && key_less(
        chars_of(a.uid.as_str()).as_slice(),
        chars_of(b.uid.as_str()).as_slice(),
    ))))))
}

/// The authors of the works, with their totals, in order; see
/// [`author_groups`] and [`sort_authors`].
pub fn author_stats(items: &Vec<ScoredItem>) -> (r: Vec<AuthorGroup>)
    ensures
        group_views(r@) == sort_authors(author_groups(scored_views(items@))),
{
    let ghost iv = scored_views(items@);
    let mut gs: Vec<AuthorGroup> = Vec::new();
    let mut i: usize = 0;
    assert(iv.take(0) =~= Seq::<(ItemView, u64, u64)>::empty());
    assert(group_views(gs@) =~= Seq::<GroupView>::empty());
    while i < items.len()
        invariant
            i <= items.len(),
            iv == scored_views(items@),
            group_views(gs@) == author_groups(iv.take(i as int)),
        decreases items.len() - i,
    {
        assert(iv.take(i + 1).drop_last() =~= iv.take(i as int));
        assert(iv.take(i + 1).last() == scored_view(items@[i as int]));
        if !items[i].item.author_nickname.as_str().is_empty() {
            add_author_exec(&mut gs, &items[i]);
        }
        i = i + 1;
    }
    assert(iv.take(items.len() as int) =~= iv);
    let ghost ev = group_views(gs@);
    let total: usize = gs.len();
    let mut rest = gs;
    let mut pending: Vec<AuthorGroup> = Vec::new();
    while rest.len() > 0
        invariant
            group_views(rest@) + group_views(pending@).reverse() == ev,
        decreases rest.len(),
    {
        let ghost b = group_views(rest@);
        let ghost p = group_views(pending@);
        let x = rest.pop().unwrap();
        pending.push(x);
        assert(group_views(rest@) =~= b.drop_last());
        assert(group_views(pending@) =~= p.push(b.last()));
        assert(group_views(pending@).reverse() =~= seq![b.last()] + p.reverse());
        assert(b =~= b.drop_last().push(b.last()));
        assert(group_views(rest@) + group_views(pending@).reverse() =~= b + p.reverse());
    }
    assert(group_views(rest@) =~= Seq::<GroupView>::empty());
    assert(group_views(pending@).reverse() =~= ev);
    let mut sorted: Vec<AuthorGroup> = Vec::new();
    let mut n: usize = 0;
    assert(ev.take(0) =~= Seq::<GroupView>::empty());
    assert(group_views(sorted@) =~= sort_authors(ev.take(0)));
    while pending.len() > 0
        invariant
            n + pending@.len() == ev.len(),
            ev.len() == total,
            group_views(pending@).reverse() == ev.skip(n as int),
            group_views(sorted@) == sort_authors(ev.take(n as int)),
        decreases pending.len(),
    {
        let ghost p = group_views(pending@);
        let x = pending.pop().unwrap();
        let ghost xv = group_view(x);
        assert(p.reverse()[0] == p.last());
        assert(xv == ev[n as int]);
        assert(group_views(pending@) =~= p.drop_last());
        assert(group_views(pending@).reverse() =~= p.reverse().drop_first());
        assert(ev.take(n + 1).drop_last() =~= ev.take(n as int));
        assert(ev.take(n + 1).last() == xv);
        let ghost sv = group_views(sorted@);
        let mut j: usize = 0;
        let mut stop = false;
        assert(sv.skip(0) =~= sv);
        assert(sv.take(0) + insert_author(sv.skip(0), xv) =~= insert_author(sv, xv));
        while j < sorted.len() && !stop
            invariant
                j <= sorted.len(),
                sv == group_views(sorted@),
                xv == group_view(x),
                stop ==> j < sorted.len() && author_before(xv, sv[j as int]),
                insert_author(sv, xv) == sv.take(j as int) + insert_author(sv.skip(j as int), xv),
            decreases sorted.len() - j, if stop { 0int } else { 1int },
        {
            assert(sv.skip(j as int)[0] == sv[j as int]);
            if author_before_exec(&x, &sorted[j]) {
                stop = true;
            } else {
                assert(sv.skip(j as int).drop_first() =~= sv.skip(j + 1));
                assert(sv.take(j + 1) =~= sv.take(j as int).push(sv[j as int]));
                j = j + 1;
            }
        }
        proof {
            if j == sorted.len() {
                assert(sv.skip(j as int) =~= Seq::<GroupView>::empty());
            } else {
                assert(sv.skip(j as int)[0] == sv[j as int]);
            }
        }
        sorted.insert(j, x);
        assert(group_views(sorted@) =~= sv.take(j as int) + seq![xv] + sv.skip(j as int));
        assert(group_views(sorted@) =~= sv.take(j as int) + insert_author(sv.skip(j as int), xv));
        n = n + 1;
    }
    assert(ev.take(n as int) =~= ev);
    sorted
}

/// Counts one work with `interactions` under `topic`: the first time at the end.
pub open spec fn add_topic(gs: Seq<(Seq<char>, u64, u64)>, topic: Seq<char>, interactions: u64) -> Seq<
    (Seq<char>, u64, u64),
>
    decreases gs.len(),
{
    if gs.len() == 0 {
        seq![(topic, 1u64, interactions)]
    } else if gs[0].0 == topic {
        gs.update(0, (topic, sat(gs[0].1, 1), sat(gs[0].2, interactions)))
    } else {
        seq![gs[0]] + add_topic(gs.drop_first(), topic, interactions)
    }
}

/// Counts a work under each of its topics.
pub open spec fn add_topics(gs: Seq<(Seq<char>, u64, u64)>, topics: Seq<Seq<char>>, interactions: u64) -> Seq<
    (Seq<char>, u64, u64),
>
    decreases topics.len(),
{
    if topics.len() == 0 {
        gs
    } else {
        add_topic(add_topics(gs, topics.drop_last(), interactions), topics.last(), interactions)
    }
}

/// The topics of the works with their work count and total interactions,
/// in order of first appearance.
pub open spec fn topic_groups(items: Seq<(ItemView, u64, u64)>) -> Seq<(Seq<char>, u64, u64)>
    decreases items.len(),
{
    if items.len() == 0 {
        Seq::empty()
    } else {
        add_topics(topic_groups(items.drop_last()), items.last().0.topics, items.last().1)
    }
}

/// Topic `a` goes before `b`: more works, then more interactions, then the smaller name.
pub open spec fn topic_before(a: (Seq<char>, u64, u64), b: (Seq<char>, u64, u64)) -> bool {
    a.1 > b.1 || (a.1 == b.1 && (a.2 > b.2 || (a.2 == b.2 && key_lt(a.0, b.0))))
}

/// Inserts a topic before the first one it goes before.
pub open spec fn insert_topic(sorted: Seq<(Seq<char>, u64, u64)>, x: (Seq<char>, u64, u64)) -> Seq<
    (Seq<char>, u64, u64),
>
    decreases sorted.len(),
{
    if sorted.len() == 0 {
        seq![x]
    } else if topic_before(x, sorted[0]) {
        seq![x] + sorted
    } else {
        seq![sorted[0]] + insert_topic(sorted.drop_first(), x)
    }
}

/// The topics in order.
pub open spec fn sort_topics(s: Seq<(Seq<char>, u64, u64)>) -> Seq<(Seq<char>, u64, u64)>
    decreases s.len(),
{
    if s.len() == 0 {
        Seq::empty()
    } else {
        insert_topic(sort_topics(s.drop_last()), s.last())
    }
}

/// A topic with its work count and total interactions.
pub struct TopicGroup {
    pub tag_name: String,
    pub count: u64,
    pub total_interactions: u64,
}

/// The plain values of topics.
pub open spec fn topic_views(v: Seq<TopicGroup>) -> Seq<(Seq<char>, u64, u64)> {
    Seq::new(v.len(), |i: int| (v[i].tag_name@, v[i].count, v[i].total_interactions))
}

fn add_topic_exec(gs: &mut Vec<TopicGroup>, topic: &String, interactions: u64)
    ensures
        topic_views(final(gs)@) == add_topic(topic_views(old(gs)@), topic@, interactions),
{
    let ghost gv = topic_views(gs@);
    let mut i: usize = 0;
    assert(gv.skip(0) =~= gv);
    assert(gv.take(0) + add_topic(gv.skip(0), topic@, interactions) =~= add_topic(gv, topic@, interactions));
    while i < gs.len()
        invariant
            i <= gs.len(),
            gv == topic_views(gs@),
            gs@ == old(gs)@,
            add_topic(gv, topic@, interactions) == gv.take(i as int) + add_topic(gv.skip(i as int), topic@, interactions),
        decreases gs.len() - i,
    {
        assert(gv.skip(i as int)[0] == gv[i as int]);
        if crate::json::str_eq(gs[i].tag_name.as_str(), topic.as_str()) {
            let g = TopicGroup {
                tag_name: topic.clone(),
                count: gs[i].count.saturating_add(1),
                total_interactions: gs[i].total_interactions.saturating_add(interactions),
            };
            let ghost entry = (g.tag_name@, g.count, g.total_interactions);
            gs.set(i, g);
            assert(topic_views(gs@) =~= gv.take(i as int) + gv.skip(i as int).update(0, entry));
            return;
        }
        assert(gv.skip(i as int).drop_first() =~= gv.skip(i + 1));
        assert(gv.take(i + 1) =~= gv.take(i as int).push(gv[i as int]));
        i = i + 1;
    }
    let g = TopicGroup { tag_name: topic.clone(), count: 1, total_interactions: interactions };
    let ghost entry = (g.tag_name@, g.count, g.total_interactions);
    gs.push(g);
    assert(gv.skip(i as int) =~= Seq::<(Seq<char>, u64, u64)>::empty());
    assert(gv.take(i as int) =~= gv);
    assert(topic_views(gs@) =~= gv + seq![entry]);
}

fn topic_before_exec(a: &TopicGroup, b: &TopicGroup) -> (r: bool)
    ensures
        r == topic_before((a.tag_name@, a.count, a.total_interactions), (b.tag_name@, b.count, b.total_interactions)),
{
    a.count > b.count || (a.count == b.count && (a.total_interactions > b.total_interactions || (
    a.total_interactions == b.total_interactions && key_less(
        chars_of(a.tag_name.as_str()).as_slice(),
        chars_of(b.tag_name.as_str()).as_slice(),
    ))))
}

/// The topics of the works, with their totals, in order; see
/// [`topic_groups`] and [`sort_topics`].
#[verifier::spinoff_prover]
#[verifier::rlimit(30)]
pub fn topic_stats(items: &Vec<ScoredItem>) -> (r: Vec<TopicGroup>)
    ensures
        topic_views(r@) == sort_topics(topic_groups(scored_views(items@))),
{
    let ghost iv = scored_views(items@);
    let mut gs: Vec<TopicGroup> = Vec::new();
    let mut i: usize = 0;
    assert(iv.take(0) =~= Seq::<(ItemView, u64, u64)>::empty());
    assert(topic_views(gs@) =~= Seq::<(Seq<char>, u64, u64)>::empty());
    while i < items.len()
        invariant
            i <= items.len(),
            iv == scored_views(items@),
            topic_views(gs@) == topic_groups(iv.take(i as int)),
        decreases items.len() - i,
    {
        assert(iv.take(i + 1).drop_last() =~= iv.take(i as int));
        assert(iv.take(i + 1).last() == scored_view(items@[i as int]));
        let ghost tv = strings_view(items@[i as int].item.topics@);
        let ghost start = topic_views(gs@);
        let mut k: usize = 0;
        assert(tv.take(0) =~= Seq::<Seq<char>>::empty());
        while k < items[i].item.topics.len()
            invariant
                i < items.len(),
                k <= items@[i as int].item.topics@.len(),
                tv == strings_view(items@[i as int].item.topics@),
                topic_views(gs@) == add_topics(start, tv.take(k as int), items@[i as int].interactions),
            decreases items@[i as int].item.topics@.len() - k,
        {
            assert(tv.take(k + 1).drop_last() =~= tv.take(k as int));
            assert(tv.take(k + 1).last() == items@[i as int].item.topics@[k as int]@);
            add_topic_exec(&mut gs, &items[i].item.topics[k], items[i].interactions);
            k = k + 1;
        }
        assert(tv.take(k as int) =~= tv);
        i = i + 1;
    }
    assert(iv.take(items.len() as int) =~= iv);
    let ghost ev = topic_views(gs@);
    let total: usize = gs.len();
    let mut rest = gs;
    let mut pending: Vec<TopicGroup> = Vec::new();
    while rest.len() > 0
        invariant
            topic_views(rest@) + topic_views(pending@).reverse() == ev,
        decreases rest.len(),
    {
        let ghost b = topic_views(rest@);
        let ghost p = topic_views(pending@);
        let x = rest.pop().unwrap();
        pending.push(x);
        assert(topic_views(rest@) =~= b.drop_last());
        assert(topic_views(pending@) =~= p.push(b.last()));
        assert(topic_views(pending@).reverse() =~= seq![b.last()] + p.reverse());
        assert(b =~= b.drop_last().push(b.last()));
        assert(topic_views(rest@) + topic_views(pending@).reverse() =~= b + p.reverse());
    }
    assert(topic_views(rest@) =~= Seq::<(Seq<char>, u64, u64)>::empty());
    assert(topic_views(pending@).reverse() =~= ev);
    let mut sorted: Vec<TopicGroup> = Vec::new();
    let mut n: usize = 0;
    assert(ev.take(0) =~= Seq::<(Seq<char>, u64, u64)>::empty());
    assert(topic_views(sorted@) =~= sort_topics(ev.take(0)));
    while pending.len() > 0
        invariant
            n + pending@.len() == ev.len(),
            ev.len() == total,
            topic_views(pending@).reverse() == ev.skip(n as int),
            topic_views(sorted@) == sort_topics(ev.take(n as int)),
        decreases pending.len(),
    {
        let ghost p = topic_views(pending@);
        let x = pending.pop().unwrap();
        let ghost xv = (x.tag_name@, x.count, x.total_interactions);
        assert(p.reverse()[0] == p.last());
        assert(xv == ev[n as int]);
        assert(topic_views(pending@) =~= p.drop_last());
        assert(topic_views(pending@).reverse() =~= p.reverse().drop_first());
        assert(ev.take(n + 1).drop_last() =~= ev.take(n as int));
        assert(ev.take(n + 1).last() == xv);
        let ghost sv = topic_views(sorted@);
        let mut j: usize = 0;
        let mut stop = false;
        assert(sv.skip(0) =~= sv);
        assert(sv.take(0) + insert_topic(sv.skip(0), xv) =~= insert_topic(sv, xv));
        while j < sorted.len() && !stop
            invariant
                j <= sorted.len(),
                sv == topic_views(sorted@),
                xv == (x.tag_name@, x.count, x.total_interactions),
                stop ==> j < sorted.len() && topic_before(xv, sv[j as int]),
                insert_topic(sv, xv) == sv.take(j as int) + insert_topic(sv.skip(j as int), xv),
            decreases sorted.len() - j, if stop { 0int } else { 1int },
        {
            assert(sv.skip(j as int)[0] == sv[j as int]);
            if topic_before_exec(&x, &sorted[j]) {
                stop = true;
            } else {
                assert(sv.skip(j as int).drop_first() =~= sv.skip(j + 1));
                assert(sv.take(j + 1) =~= sv.take(j as int).push(sv[j as int]));
                j = j + 1;
            }
        }
        proof {
            if j == sorted.len() {
                assert(sv.skip(j as int) =~= Seq::<(Seq<char>, u64, u64)>::empty());
            } else {
                assert(sv.skip(j as int)[0] == sv[j as int]);
            }
        }
        sorted.insert(j, x);
        assert(topic_views(sorted@) =~= sv.take(j as int) + seq![xv] + sv.skip(j as int));
        assert(topic_views(sorted@) =~= sv.take(j as int) + insert_topic(sv.skip(j as int), xv));
        n = n + 1;
    }
    assert(ev.take(n as int) =~= ev);
    sorted
}

/// Counts the works that have a metric present; see [`metric`].
pub fn coverage(items: &Vec<ScoredItem>, m: u8) -> (r: usize)
    ensures
        r == metric_values(scored_views(items@), m).len(),
{
    let v = values_of(items, m);
    v.len()
}

/// The Markdown-safe form of one character: `\`, `|`, `[` and `]` escaped,
/// line breaks turned into spaces.
pub open spec fn escape_char_md(c: char) -> Seq<char> {
    if c == '\\' {
        seq!['\\', '\\']
    } else if c == '|' {
        seq!['\\', '|']
    } else if c == '[' {
        seq!['\\', '[']
    } else if c == ']' {
        seq!['\\', ']']
    } else if c == '\r' || c == '\n' {
        seq![' ']
    } else {
        seq![c]
    }
}

/// The Markdown-safe form of a text for a table cell or a link label.
pub open spec fn escape_md(s: Seq<char>) -> Seq<char>
    decreases s.len(),
{
    if s.len() == 0 {
        Seq::empty()
    } else {
        escape_md(s.drop_last()) + escape_char_md(s.last())
    }
}

fn escape_into(s: &str, out: &mut Vec<char>)
    ensures
        final(out)@ == old(out)@ + escape_md(s@),
{
    let cs = chars_of(s);
    let ghost start = out@;
    let mut i: usize = 0;
    assert(cs@.take(0) =~= Seq::<char>::empty());
    while i < cs.len()
        invariant
            i <= cs.len(),
            cs@ == s@,
            out@ == start + escape_md(cs@.take(i as int)),
        decreases cs.len() - i,
    {
        assert(cs@.take(i + 1).drop_last() =~= cs@.take(i as int));
        let c = cs[i];
        let ghost before = out@;
        if c == '\\' {
            out.push('\\');
            out.push('\\');
        } else if c == '|' {
            out.push('\\');
            out.push('|');
        } else if c == '[' {
            out.push('\\');
            out.push('[');
        } else if c == ']' {
            out.push('\\');
            out.push(']');
        } else if c == '\r' || c == '\n' {
            out.push(' ');
        } else {
            out.push(c);
        }
        assert(out@ =~= before + escape_char_md(c));
        i = i + 1;
    }
    assert(cs@.take(cs.len() as int) =~= cs@);
}

/// The Markdown-safe form of a text; see [`escape_md`].
pub fn escape_markdown(value: &str) -> (r: String)
    ensures
        r@ == escape_md(value@),
{
    let mut out: Vec<char> = Vec::new();
    escape_into(value, &mut out);
    assert(out@ =~= escape_md(value@));
    string_of(out.as_slice())
}

/// `value[key]`.
pub open spec fn at(v: JsonV, key: Seq<char>) -> JsonV {
    crate::insights::index_of(v, key)
}

/// A value as the report shows it: `无` for null, its JSON text otherwise.
pub open spec fn shown(v: JsonV) -> Seq<char> {
    if v == JsonV::Null {
        "无"@
    } else {
        crate::json::json_text(v)
    }
}

/// The text of a string value, or the empty text.
pub open spec fn str_or_empty(v: JsonV) -> Seq<char> {
    match v {
        JsonV::Str(s) => s,
        _ => Seq::empty(),
    }
}

/// One row of the overall summary.
pub open spec fn metric_row(r: JsonV, label: Seq<char>, key: Seq<char>) -> Seq<char> {
    let m = at(at(r, "summary"@), key);
    "| "@ + label + " | "@ + shown(at(m, "total"@)) + " | "@ + shown(at(m, "average"@)) + " | "@
        + shown(at(m, "median"@)) + " |\n"@
}

/// One row of the field coverage.
pub open spec fn coverage_row(r: JsonV, key: Seq<char>) -> Seq<char> {
    "| "@ + key + " | "@ + crate::json::json_text(at(at(r, "metric_coverage"@), key)) + " |\n"@
}

/// One row of the duration buckets.
pub open spec fn bucket_row(r: JsonV, label: Seq<char>, key: Seq<char>) -> Seq<char> {
    let b = at(at(r, "duration_buckets"@), key);
    "| "@ + label + " | "@ + crate::json::json_text(at(b, "count"@)) + " | "@ + crate::json::json_text(
        at(b, "average_interactions"@),
    ) + " |\n"@
}

/// One row of the author list.
pub open spec fn author_row(row: JsonV) -> Seq<char> {
    "| "@ + escape_md(str_or_empty(at(row, "author_nickname"@))) + " | "@ + escape_md(
        str_or_empty(at(row, "author_uid"@)),
    ) + " | "@ + crate::json::json_text(at(row, "count"@)) + " | "@ + crate::json::json_text(
        at(row, "total_interactions"@),
    ) + " | "@ + crate::json::json_text(at(row, "average_interactions"@)) + " |\n"@
}

/// One row of the topic list.
pub open spec fn topic_row(row: JsonV) -> Seq<char> {
    "| #"@ + escape_md(str_or_empty(at(row, "tag_name"@))) + " | "@ + crate::json::json_text(
        at(row, "count"@),
    ) + " | "@ + crate::json::json_text(at(row, "total_interactions"@)) + " |\n"@
}

/// One row of the top works, its description a link to its page.
pub open spec fn top_row(row: JsonV) -> Seq<char> {
    "| "@ + crate::json::json_text(at(row, "rank"@)) + " | ["@ + escape_md(
        str_or_empty(at(row, "desc"@)),
    ) + "]("@ + str_or_empty(at(row, "share_url"@)) + ") | "@ + escape_md(
        str_or_empty(at(row, "author_nickname"@)),
    ) + " | "@ + crate::json::json_text(at(row, "interactions"@)) + " | "@ + crate::json::json_text(
        at(row, "score"@),
    ) + " |\n"@
}

/// One row of a list: an author (0), a topic (1) or a top work (2).
pub open spec fn list_row(row: JsonV, kind: u8) -> Seq<char> {
    if kind == 0 {
        author_row(row)
    } else if kind == 1 {
        topic_row(row)
    } else {
        top_row(row)
    }
}

/// The rows of a list value; nothing when it is no list.
pub open spec fn list_rows(items: Seq<JsonV>, kind: u8) -> Seq<char>
    decreases items.len(),
{
    if items.len() == 0 {
        Seq::empty()
    } else {
        list_rows(items.drop_last(), kind) + list_row(items.last(), kind)
    }
}

/// The rows of the list under `key`.
pub open spec fn rows_of(r: JsonV, key: Seq<char>, kind: u8) -> Seq<char> {
    match at(r, key) {
        JsonV::Arr(items) => list_rows(items, kind),
        _ => Seq::empty(),
    }
}

/// The heading and overall summary of the report.
pub open spec fn report_head(r: JsonV) -> Seq<char> {
    "# 作品表现离线统计\n\n输入作品："@ + crate::json::json_text(at(r, "input_count"@)) + "；匹配作品："@
        + crate::json::json_text(at(r, "matched_count"@)) + "；排序：`"@ + str_or_empty(at(r, "sort"@))
        + "`。\n\n> 仅统计采集元数据，不分析媒体画面、声音、Hook、镜头、字幕。缺少播放量，因此综合分不是互动率。\n\n"@
        + "## 总体汇总\n\n| 指标 | 总计 | 平均 | 中位数 |\n|---|---:|---:|---:|\n"@ + metric_row(
        r,
        "点赞"@,
        "likes"@,
    ) + metric_row(r, "评论"@, "comments"@) + metric_row(r, "收藏"@, "collects"@) + metric_row(
        r,
        "分享"@,
        "shares"@,
    ) + metric_row(r, "互动合计"@, "interactions"@)
}

/// The duration and publish-time lines of the report.
pub open spec fn report_times(r: JsonV) -> Seq<char> {
    let d = at(at(r, "summary"@), "duration_ms"@);
    let p = at(at(r, "summary"@), "published_time"@);
    "\n时长（毫秒）：平均 "@ + shown(at(d, "average"@)) + "，中位数 "@ + shown(at(d, "median"@))
        + "，最小 "@ + shown(at(d, "min"@)) + "，最大 "@ + shown(at(d, "max"@)) + "。\n\n发布时间：最早 "@
        + shown(at(p, "earliest"@)) + "，最晚 "@ + shown(at(p, "latest"@)) + "。\n"@
}

/// The coverage and bucket tables of the report.
pub open spec fn report_tables(r: JsonV) -> Seq<char> {
    "\n## 字段覆盖\n\n| 字段 | 有效记录数 |\n|---|---:|\n"@ + coverage_row(r, "likes"@) + coverage_row(
        r,
        "comments"@,
    ) + coverage_row(r, "collects"@) + coverage_row(r, "shares"@) + coverage_row(r, "duration_ms"@)
        + coverage_row(r, "published_time"@) + "\n## 时长分桶\n\n| 时长 | 作品数 | 平均互动 |\n|---|---:|---:|\n"@
        + bucket_row(r, "不足 60 秒"@, "under_60s"@) + bucket_row(r, "60–300 秒"@, "60_to_300s"@)
        + bucket_row(r, "300 秒及以上"@, "over_300s"@)
}

/// The author, topic and top-work lists of the report.
pub open spec fn report_lists(r: JsonV) -> Seq<char> {
    "\n## 作者\n\n| 作者 | UID | 作品数 | 总互动 | 平均互动 |\n|---|---|---:|---:|---:|\n"@ + rows_of(
        r,
        "authors"@,
        0,
    ) + "\n## 话题\n\n| 话题 | 作品数 | 总互动 |\n|---|---:|---:|\n"@ + rows_of(r, "topics"@, 1)
        + "\n## Top 作品\n\n| # | 作品 | 作者 | 互动 | 综合分 |\n|---:|---|---|---:|---:|\n"@ + rows_of(
        r,
        "top_items"@,
        2,
    )
}

/// The Markdown report of the statistics.
pub open spec fn stats_report(r: JsonV) -> Seq<char> {
    report_head(r) + report_times(r) + report_tables(r) + report_lists(r)
}

fn at_exec<'a>(v: &'a Json, key: &str, null: &'a Json) -> (r: &'a Json)
    requires
        null.jv() == JsonV::Null,
    ensures
        r.jv() == at(v.jv(), key@),
{
    match v.get(key) {
        Some(x) => x,
        None => null,
    }
}

fn put(out: &mut Vec<char>, s: &str)
    ensures
        final(out)@ == old(out)@ + s@,
{
    crate::text::append_chars(out, chars_of(s).as_slice());
}

fn put_json(out: &mut Vec<char>, v: &Json)
    ensures
        final(out)@ == old(out)@ + crate::json::json_text(v.jv()),
{
    crate::json::write_json(v, out);
}

fn put_shown(out: &mut Vec<char>, v: &Json)
    ensures
        final(out)@ == old(out)@ + shown(v.jv()),
{
    match v {
        Json::Null => put(out, "无"),
        _ => put_json(out, v),
    }
}

fn put_str_or_empty(out: &mut Vec<char>, v: &Json, escaped: bool)
    ensures
        escaped ==> final(out)@ == old(out)@ + escape_md(str_or_empty(v.jv())),
        !escaped ==> final(out)@ == old(out)@ + str_or_empty(v.jv()),
{
    match v {
        Json::Str(s) => if escaped {
            escape_into(s.as_str(), out)
        } else {
            put(out, s.as_str())
        },
        _ => {
            assert(escape_md(Seq::<char>::empty()) =~= Seq::<char>::empty());
            assert(out@ =~= out@ + Seq::<char>::empty());
        },
    }
}

fn metric_row_exec(r: &Json, label: &str, key: &str, out: &mut Vec<char>)
    ensures
        final(out)@ == old(out)@ + metric_row(r.jv(), label@, key@),
{
    let null = Json::Null;
    let ghost start = out@;
    let m = at_exec(at_exec(r, "summary", &null), key, &null);
    put(out, "| ");
    put(out, label);
    put(out, " | ");
    put_shown(out, at_exec(m, "total", &null));
    put(out, " | ");
    put_shown(out, at_exec(m, "average", &null));
    put(out, " | ");
    put_shown(out, at_exec(m, "median", &null));
    put(out, " |\n");
    assert(out@ =~= start + metric_row(r.jv(), label@, key@));
}

fn coverage_row_exec(r: &Json, key: &str, out: &mut Vec<char>)
    ensures
        final(out)@ == old(out)@ + coverage_row(r.jv(), key@),
{
    let null = Json::Null;
    let ghost start = out@;
    put(out, "| ");
    put(out, key);
    put(out, " | ");
    put_json(out, at_exec(at_exec(r, "metric_coverage", &null), key, &null));
    put(out, " |\n");
    assert(out@ =~= start + coverage_row(r.jv(), key@));
}

fn bucket_row_exec(r: &Json, label: &str, key: &str, out: &mut Vec<char>)
    ensures
        final(out)@ == old(out)@ + bucket_row(r.jv(), label@, key@),
{
    let null = Json::Null;
    let ghost start = out@;
    let b = at_exec(at_exec(r, "duration_buckets", &null), key, &null);
    put(out, "| ");
    put(out, label);
    put(out, " | ");
    put_json(out, at_exec(b, "count", &null));
    put(out, " | ");
    put_json(out, at_exec(b, "average_interactions", &null));
    put(out, " |\n");
    assert(out@ =~= start + bucket_row(r.jv(), label@, key@));
}

#[verifier::rlimit(100)]
fn author_row_exec(row: &Json, out: &mut Vec<char>)
    ensures
        final(out)@ == old(out)@ + author_row(row.jv()),
{
    let null = Json::Null;
    let ghost start = out@;
    put(out, "| ");
    put_str_or_empty(out, at_exec(row, "author_nickname", &null), true);
    put(out, " | ");
    put_str_or_empty(out, at_exec(row, "author_uid", &null), true);
    put(out, " | ");
    put_json(out, at_exec(row, "count", &null));
    put(out, " | ");
    put_json(out, at_exec(row, "total_interactions", &null));
    put(out, " | ");
    put_json(out, at_exec(row, "average_interactions", &null));
    put(out, " |\n");
    assert(out@ =~= start + author_row(row.jv()));
}

#[verifier::spinoff_prover]
#[verifier::rlimit(30)]
fn topic_row_exec(row: &Json, out: &mut Vec<char>)
    ensures
        final(out)@ == old(out)@ + topic_row(row.jv()),
{
    let null = Json::Null;
    let ghost start = out@;
    put(out, "| #");
    put_str_or_empty(out, at_exec(row, "tag_name", &null), true);
    put(out, " | ");
    put_json(out, at_exec(row, "count", &null));
    put(out, " | ");
    put_json(out, at_exec(row, "total_interactions", &null));
    put(out, " |\n");
    assert(out@ =~= start + topic_row(row.jv()));
}

#[verifier::rlimit(100)]
fn top_row_exec(row: &Json, out: &mut Vec<char>)
    ensures
        final(out)@ == old(out)@ + top_row(row.jv()),
{
    let null = Json::Null;
    let ghost start = out@;
    put(out, "| ");
    put_json(out, at_exec(row, "rank", &null));
    put(out, " | [");
    put_str_or_empty(out, at_exec(row, "desc", &null), true);
    put(out, "](");
    put_str_or_empty(out, at_exec(row, "share_url", &null), false);
    put(out, ") | ");
    put_str_or_empty(out, at_exec(row, "author_nickname", &null), true);
    put(out, " | ");
    put_json(out, at_exec(row, "interactions", &null));
    put(out, " | ");
    put_json(out, at_exec(row, "score", &null));
    put(out, " |\n");
    assert(out@ =~= start + top_row(row.jv()));
}

fn list_row_exec(row: &Json, kind: u8, out: &mut Vec<char>)
    ensures
        final(out)@ == old(out)@ + list_row(row.jv(), kind),
{
    if kind == 0 {
        author_row_exec(row, out);
    } else if kind == 1 {
        topic_row_exec(row, out);
    } else {
        top_row_exec(row, out);
    }
}

fn rows_exec(r: &Json, key: &str, kind: u8, out: &mut Vec<char>)
    ensures
        final(out)@ == old(out)@ + rows_of(r.jv(), key@, kind),
{
    let null = Json::Null;
    let ghost start = out@;
    match at_exec(r, key, &null) {
        Json::Arr(items) => {
            proof {
                crate::json::lemma_arr_view(*items);
            }
            let ghost iv = items_view(items@);
            let mut i: usize = 0;
            assert(iv.take(0) =~= Seq::<JsonV>::empty());
            assert(out@ =~= start + list_rows(iv.take(0), kind));
            while i < items.len()
                invariant
                    i <= items.len(),
                    iv == items_view(items@),
                    out@ == start + list_rows(iv.take(i as int), kind),
                decreases items.len() - i,
            {
                assert(iv.take(i + 1).drop_last() =~= iv.take(i as int));
                assert(iv.take(i + 1).last() == items@[i as int].jv());
                list_row_exec(&items[i], kind, out);
                i = i + 1;
            }
            assert(iv.take(items.len() as int) =~= iv);
        },
        _ => {
            assert(out@ =~= start + Seq::<char>::empty());
        },
    }
}

#[verifier::spinoff_prover]
#[verifier::rlimit(100)]
fn head_exec(result: &Json, out: &mut Vec<char>)
    ensures
        final(out)@ == old(out)@ + report_head(result.jv()),
{
    let null = Json::Null;
    let ghost start = out@;
    put(out, "# 作品表现离线统计\n\n输入作品：");
    put_json(out, at_exec(result, "input_count", &null));
    put(out, "；匹配作品：");
    put_json(out, at_exec(result, "matched_count", &null));
    put(out, "；排序：`");
    put_str_or_empty(out, at_exec(result, "sort", &null), false);
    put(out, "`。\n\n> 仅统计采集元数据，不分析媒体画面、声音、Hook、镜头、字幕。缺少播放量，因此综合分不是互动率。\n\n");
    put(out, "## 总体汇总\n\n| 指标 | 总计 | 平均 | 中位数 |\n|---|---:|---:|---:|\n");
    metric_row_exec(result, "点赞", "likes", out);
    metric_row_exec(result, "评论", "comments", out);
    metric_row_exec(result, "收藏", "collects", out);
    metric_row_exec(result, "分享", "shares", out);
    metric_row_exec(result, "互动合计", "interactions", out);
    assert(out@ =~= start + report_head(result.jv()));
}

#[verifier::spinoff_prover]
#[verifier::rlimit(100)]
fn times_exec(result: &Json, out: &mut Vec<char>)
    ensures
        final(out)@ == old(out)@ + report_times(result.jv()),
{
    let null = Json::Null;
    let ghost start = out@;
    let s = at_exec(result, "summary", &null);
    let d = at_exec(s, "duration_ms", &null);
    let p = at_exec(s, "published_time", &null);
    put(out, "\n时长（毫秒）：平均 ");
    put_shown(out, at_exec(d, "average", &null));
    put(out, "，中位数 ");
    put_shown(out, at_exec(d, "median", &null));
    put(out, "，最小 ");
    put_shown(out, at_exec(d, "min", &null));
    put(out, "，最大 ");
    put_shown(out, at_exec(d, "max", &null));
    put(out, "。\n\n发布时间：最早 ");
    put_shown(out, at_exec(p, "earliest", &null));
    put(out, "，最晚 ");
    put_shown(out, at_exec(p, "latest", &null));
    put(out, "。\n");
    assert(out@ =~= start + report_times(result.jv()));
}

#[verifier::spinoff_prover]
#[verifier::rlimit(40)]
fn tables_exec(result: &Json, out: &mut Vec<char>)
    ensures
        final(out)@ == old(out)@ + report_tables(result.jv()),
{
    let ghost start = out@;
    put(out, "\n## 字段覆盖\n\n| 字段 | 有效记录数 |\n|---|---:|\n");
    coverage_row_exec(result, "likes", out);
    coverage_row_exec(result, "comments", out);
    coverage_row_exec(result, "collects", out);
    coverage_row_exec(result, "shares", out);
    coverage_row_exec(result, "duration_ms", out);
    coverage_row_exec(result, "published_time", out);
    put(out, "\n## 时长分桶\n\n| 时长 | 作品数 | 平均互动 |\n|---|---:|---:|\n");
    bucket_row_exec(result, "不足 60 秒", "under_60s", out);
    bucket_row_exec(result, "60–300 秒", "60_to_300s", out);
    bucket_row_exec(result, "300 秒及以上", "over_300s", out);
    assert(out@ =~= start + report_tables(result.jv()));
}

#[verifier::spinoff_prover]
#[verifier::rlimit(40)]
fn lists_exec(result: &Json, out: &mut Vec<char>)
    ensures
        final(out)@ == old(out)@ + report_lists(result.jv()),
{
    let ghost start = out@;
    put(out, "\n## 作者\n\n| 作者 | UID | 作品数 | 总互动 | 平均互动 |\n|---|---|---:|---:|---:|\n");
    rows_exec(result, "authors", 0, out);
    put(out, "\n## 话题\n\n| 话题 | 作品数 | 总互动 |\n|---|---:|---:|\n");
    rows_exec(result, "topics", 1, out);
    put(out, "\n## Top 作品\n\n| # | 作品 | 作者 | 互动 | 综合分 |\n|---:|---|---|---:|---:|\n");
    rows_exec(result, "top_items", 2, out);
    assert(out@ =~= start + report_lists(result.jv()));
}

/// The Markdown report of the statistics; see [`stats_report`].
pub fn render_markdown(result: &Json) -> (r: String)
    ensures
        r@ == stats_report(result.jv()),
{
    let mut out: Vec<char> = Vec::new();
    head_exec(result, &mut out);
    times_exec(result, &mut out);
    tables_exec(result, &mut out);
    lists_exec(result, &mut out);
    assert(out@ =~= stats_report(result.jv()));
    string_of(out.as_slice())
}

} // verus!
