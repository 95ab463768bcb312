//! Laws on what the statistics, file names, chat records, subtitles and
//! comment requests are made of.
use vstd::prelude::*;
use crate::comments::{chat_records, comment_records, digg_of, reply_records, ChatmlOptions};
use crate::crawler::int_of;
use crate::download::{field_part, name_parts};
use crate::json::{lookup, JsonV};
use crate::mcp::{comment_page, tool_step, StepView};
use crate::stats::range_of;
use crate::subtitles::{blocks, srt_text, timestamp};
use crate::text::{decimal, signed_decimal};

verus! {

/// The range of some values is `None` exactly when there are none;
/// otherwise both ends are among the values, the first is at most every
/// value and the second at least every value.
pub proof fn law_range_bounds(values: Seq<u64>)
    ensures
        values.len() == 0 <==> range_of(values) is None,
        range_of(values) matches Some(r) ==> {
            &&& forall|i: int| 0 <= i < values.len() ==> r.0 <= #[trigger] values[i] && values[i] <= r.1
            &&& exists|i: int| 0 <= i < values.len() && #[trigger] values[i] == r.0
            &&& exists|j: int| 0 <= j < values.len() && #[trigger] values[j] == r.1
        },
    decreases values.len(),
{
    if values.len() > 0 {
        let p = values.drop_last();
        let x = values.last();
        let n = values.len() - 1;
        law_range_bounds(p);
        assert(values[n] == x);
        assert(forall|i: int| 0 <= i < p.len() ==> p[i] == values[i]);
        match range_of(p) {
            None => {
                assert(p.len() == 0);
            },
            Some(q) => {
                let i = choose|i: int| 0 <= i < p.len() && #[trigger] p[i] == q.0;
                let j = choose|j: int| 0 <= j < p.len() && #[trigger] p[j] == q.1;
                if !(x < q.0) {
                    assert(values[i] == q.0);
                }
                if !(x > q.1) {
                    assert(values[j] == q.1);
                }
            },
        }
    }
}

/// The integer `type` of a saved work, if it has one.
pub open spec fn work_type(item: JsonV) -> Option<i64> {
    match item.get("type"@) {
        Some(t) => int_of(t),
        None => None,
    }
}

/// The `type` part of a file name is `图文` for an image post (integer type
/// 68) and `视频` for any other work; it is never left out of the name.
pub proof fn law_type_label(item: JsonV)
    ensures
        work_type(item) == Some(68i64) ==> field_part(item, "type"@) == "图文"@,
        work_type(item) != Some(68i64) ==> field_part(item, "type"@) == "视频"@,
        "图文"@ != "视频"@,
        name_parts(item, seq!["type"@]) == seq![field_part(item, "type"@)],
{
    reveal_strlit("id");
    reveal_strlit("title");
    reveal_strlit("author");
    reveal_strlit("type");
    reveal_strlit("图文");
    reveal_strlit("视频");
    assert("图文"@[0] != "视频"@[0]);
    assert("type"@.len() == 4 && "id"@.len() == 2 && "title"@.len() == 5 && "author"@.len() == 6);
    assert("type"@ != "id"@ && "type"@ != "title"@ && "type"@ != "author"@);
    assert("图文"@.len() == 2 && "视频"@.len() == 2);
    assert(field_part(item, "type"@) == (if work_type(item) == Some(68i64) {
        "图文"@
    } else {
        "视频"@
    }));
    assert(seq!["type"@].last() == "type"@);
    assert(seq!["type"@].drop_last() =~= Seq::<Seq<char>>::empty());
    assert(name_parts(item, Seq::<Seq<char>>::empty()) == Seq::<Seq<char>>::empty());
    assert(name_parts(item, seq!["type"@]) == name_parts(item, Seq::<Seq<char>>::empty()).push(
        field_part(item, "type"@),
    ));
    assert(Seq::<Seq<char>>::empty().push(field_part(item, "type"@)) =~= seq![field_part(item, "type"@)]);
}

/// A comment with fewer likes than the comment threshold makes no record,
/// so adding it to the comments changes nothing.
pub proof fn law_low_liked_comments_make_no_records(
    aweme_id: Seq<char>,
    comments: Seq<JsonV>,
    c: JsonV,
    o: ChatmlOptions,
)
    requires
        digg_of(c) < o.min_comment_digg,
    ensures
        comment_records(aweme_id, c, o).len() == 0,
        chat_records(aweme_id, comments.push(c), o) == chat_records(aweme_id, comments, o),
{
    assert(comments.push(c).drop_last() =~= comments);
    assert(chat_records(aweme_id, comments, o) + Seq::<JsonV>::empty() =~= chat_records(aweme_id, comments, o));
}

/// A reply with fewer likes than the reply threshold makes no record, so
/// adding it to the replies changes nothing.
pub proof fn law_low_liked_replies_make_no_records(
    aweme_id: Seq<char>,
    c: JsonV,
    text: Seq<char>,
    replies: Seq<JsonV>,
    r: JsonV,
    o: ChatmlOptions,
)
    requires
        digg_of(r) < o.min_reply_digg,
    ensures
        reply_records(aweme_id, c, text, replies.push(r), o) == reply_records(aweme_id, c, text, replies, o),
{
    assert(replies.push(r).drop_last() =~= replies);
}

/// One SRT cue: its number, its times and its text.
pub open spec fn srt_cue(number: nat, s: (u64, u64, Seq<char>)) -> Seq<char> {
    decimal(number) + seq!['\n'] + timestamp(s.0 as nat, ',') + " --> "@ + timestamp(s.1 as nat, ',')
        + seq!['\n'] + s.2
}

/// SRT cues are numbered from 1: the cue of the segment added after `v`
/// holds the number `v.len() + 1` and ends the file, after a blank line.
pub proof fn law_srt_numbers_cues_from_one(v: Seq<(u64, u64, Seq<char>)>, s: (u64, u64, Seq<char>))
    ensures
        srt_text(v.push(s)) == (if v.len() == 0 {
            Seq::<char>::empty()
        } else {
            blocks(v, true) + seq!['\n', '\n']
        }) + srt_cue((v.len() + 1) as nat, s) + seq!['\n'],
{
    assert(v.push(s).drop_last() =~= v);
    assert(v.push(s).last() == s);
    if v.len() == 0 {
        assert(Seq::<char>::empty() + srt_cue(1, s) =~= srt_cue(1, s));
    }
}

/// The integer argument `key` of a tool call, `default` when it is missing
/// or not an integer.
pub open spec fn integer_argument(args: Seq<(Seq<char>, JsonV)>, key: Seq<char>, default: i64) -> i64 {
    match lookup(args, key) {
        Some(JsonV::UInt(n)) => if n <= i64::MAX {
            n as i64
        } else {
            default
        },
        Some(JsonV::NegInt(n)) => n,
        _ => default,
    }
}

/// A page of comments or replies is asked for at the `cursor` and `count`
/// the call gives (0 and 20 when absent): its only `cursor` and `count`
/// parameters are their decimals.
pub proof fn law_comment_page_follows_cursor(
    path: Seq<char>,
    token: Seq<char>,
    open_id: Seq<char>,
    item_id: Seq<char>,
    comment_id: Option<Seq<char>>,
    args: Seq<(Seq<char>, JsonV)>,
)
    ensures
        ({
            let req = comment_page(path, token, open_id, item_id, comment_id, args);
            let ps = req.params.unwrap();
            &&& req.params is Some
            &&& req.method == "GET"@
            &&& req.path == path
            &&& exists|i: int| 0 <= i < ps.len() && ps[i] == ("cursor"@, signed_decimal(integer_argument(args, "cursor"@, 0) as int))
            &&& forall|i: int| 0 <= i < ps.len() && #[trigger] ps[i].0 == "cursor"@ ==> ps[i].1 == signed_decimal(
                integer_argument(args, "cursor"@, 0) as int,
            )
            &&& exists|i: int| 0 <= i < ps.len() && ps[i] == ("count"@, signed_decimal(integer_argument(args, "count"@, 20) as int))
            &&& forall|i: int| 0 <= i < ps.len() && #[trigger] ps[i].0 == "count"@ ==> ps[i].1 == signed_decimal(
                integer_argument(args, "count"@, 20) as int,
            )
        }),
{
    reveal_strlit("cursor");
    reveal_strlit("count");
    reveal_strlit("open_id");
    reveal_strlit("item_id");
    reveal_strlit("comment_id");
    let req = comment_page(path, token, open_id, item_id, comment_id, args);
    let ps = req.params.unwrap();
    assert("cursor"@[1] != "count"@[1]);
    assert("cursor"@[0] != "open_id"@[0] && "cursor"@[0] != "item_id"@[0]);
    assert("count"@[0] != "open_id"@[0] && "count"@[0] != "item_id"@[0]);
    assert("cursor"@.len() != "comment_id"@.len() && "count"@.len() != "comment_id"@.len());
    let n = ps.len();
    assert(ps[n - 2].0 == "cursor"@ && ps[n - 1].0 == "count"@);
}

/// A `comment_list` or `comment_replies` tool call that reaches the
/// platform asks for the page at the call's `cursor` (0 when absent).
pub proof fn law_comment_tools_follow_cursor(
    name: Seq<char>,
    args: Seq<(Seq<char>, JsonV)>,
    saved: Result<Seq<(Seq<char>, JsonV)>, Seq<char>>,
)
    requires
        name == "comment_list"@ || name == "comment_replies"@,
    ensures
        tool_step(name, args, saved) matches StepView::Call(req) ==> req.params matches Some(ps) && exists|i: int|
            0 <= i < ps.len() && ps[i] == ("cursor"@, signed_decimal(integer_argument(args, "cursor"@, 0) as int)),
{
    reveal_strlit("comment_list");
    reveal_strlit("comment_replies");
    reveal_strlit("hot_words");
    reveal_strlit("hot_memes");
    reveal_strlit("demand_discovery");
    reveal_strlit("auth_status");
    reveal_strlit("userinfo");
    assert(name.len() == 12 || name.len() == 15);
    if let StepView::Call(req) = tool_step(name, args, saved) {
        law_comment_page_follows_cursor(
            req.path,
            req.token.unwrap(),
            req.params.unwrap()[0].1,
            req.params.unwrap()[1].1,
            if name == "comment_list"@ {
                None
            } else {
                Some(req.params.unwrap()[2].1)
            },
            args,
        );
    }
}

} // verus!
