//! Properties of the library that span its functions: what a read of an
//! object gives back after a write, what laying settings over each other
//! keeps, and the guarantees of the request paths.
use vstd::prelude::*;
use crate::api::{api_plan, first_key, key_values, put_pair, ActionView, ApiCommand};
use crate::auth::{callback_of, extend, first_line, last_value, nth_word, with_openapi};
use crate::json::{lookup, set_entry, JsonV};
use crate::mcp::{
    all_texts, count_arg, insight_key, message_reply, positive_arg, reply_to, text_records, tool_step,
    ReplyView, StepView, ToolFailure,
};
use crate::insights::analysis;
use crate::openapi::{excerpt, no_token, request_target, RequestView};
use crate::settings::{merge_entries, merged};
use crate::target::{parsed_url, UrlView};
use crate::comments::accepted_count;
use crate::cookie::{
    cookie_fold, cookie_map, cookie_pair, cookie_valid, has_verify_check, is_login_key, login_verdict, sso_verdict,
    web_verdict,
};
use crate::crawler::{drop_forbidden, fit_len, is_forbidden, sanitized, utf8_len, CrawlType};
use crate::text::{
    collapse_ws, contains, find, is_ws, lemma_find_facts, occurs_at, split_char, trim, trim_end, trim_start,
};
use crate::download::{id_key, insert_desc, sort_desc};
use crate::json::key_lt;
use crate::pages::absorb;
use crate::stats::{goes_before, insert_scored, sort_scored, ItemView, SortMetric};
use crate::insights::{insert_ranked, kept, rank_key, rank_sort, ranked, ranks_before, DemandTally};

verus! {

/// Reading a key of an object after writing it gives what was written; the
/// other keys read as before.
pub proof fn law_read_after_write(es: Seq<(Seq<char>, JsonV)>, key: Seq<char>, value: JsonV, other: Seq<char>)
    ensures
        lookup(set_entry(es, key, value), key) == Some(value),
        other != key ==> lookup(set_entry(es, key, value), other) == lookup(es, other),
    decreases es.len(),
{
    if es.len() == 0 {
        assert(seq![(key, value)].drop_first() =~= es);
    } else if es[0].0 == key {
        let r = es.update(0, (key, value));
        assert(r.drop_first() =~= es.drop_first());
    } else if crate::json::key_lt(key, es[0].0) {
        let r = seq![(key, value)] + es;
        assert(r.drop_first() =~= es);
    } else {
        law_read_after_write(es.drop_first(), key, value, other);
        let r = seq![es[0]] + set_entry(es.drop_first(), key, value);
        assert(r.drop_first() =~= set_entry(es.drop_first(), key, value));
    }
}

/// Laying a stored object over the defaults keeps every key of both.
pub proof fn law_merge_keeps_keys(base: Seq<(Seq<char>, JsonV)>, overlay: Seq<(Seq<char>, JsonV)>, key: Seq<char>)
    ensures
        (lookup(base, key) is Some || lookup(overlay, key) is Some) ==> lookup(merge_entries(base, overlay), key) is Some,
    decreases overlay.len(),
{
    if overlay.len() > 0 {
        let k = overlay[0].0;
        let next = match lookup(base, k) {
            Some(e) => set_entry(base, k, merged(e, overlay[0].1)),
            None => set_entry(base, k, overlay[0].1),
        };
        let v = match lookup(base, k) {
            Some(e) => merged(e, overlay[0].1),
            None => overlay[0].1,
        };
        law_read_after_write(base, k, v, key);
        assert(next == set_entry(base, k, v));
        law_merge_keeps_keys(next, overlay.drop_first(), key);
        if lookup(overlay, key) is Some && overlay[0].0 != key {
            assert(lookup(overlay.drop_first(), key) == lookup(overlay, key));
        }
    }
}

/// The value of the last entry with `key`.
pub open spec fn last_entry(es: Seq<(Seq<char>, JsonV)>, key: Seq<char>) -> Option<JsonV>
    decreases es.len(),
{
    if es.len() == 0 {
        None
    } else if es.last().0 == key {
        Some(es.last().1)
    } else {
        last_entry(es.drop_last(), key)
    }
}

/// Laying updates over entries: a key that was updated reads as its last
/// update, any other key as before.
pub proof fn law_extend_reads(base: Seq<(Seq<char>, JsonV)>, updates: Seq<(Seq<char>, JsonV)>, key: Seq<char>)
    ensures
        lookup(extend(base, updates), key) == match last_entry(updates, key) {
            Some(v) => Some(v),
            None => lookup(base, key),
        },
    decreases updates.len(),
{
    if updates.len() > 0 {
        law_extend_reads(base, updates.drop_last(), key);
        law_read_after_write(extend(base, updates.drop_last()), updates.last().0, updates.last().1, key);
    }
}

/// Saving OAuth settings changes the `openapi` section only: there, an
/// updated key reads as its last update and any other as before; every
/// other setting reads as before.
pub proof fn law_openapi_update(data: JsonV, updates: Seq<(Seq<char>, JsonV)>, key: Seq<char>)
    ensures
        match (data, with_openapi(data, updates)) {
            (JsonV::Obj(es), Ok(JsonV::Obj(d))) => match lookup(es, "openapi"@) {
                Some(JsonV::Obj(section)) => {
                    &&& key != "openapi"@ ==> lookup(d, key) == lookup(es, key)
                    &&& lookup(d, "openapi"@) == Some(JsonV::Obj(extend(section, updates)))
                    &&& lookup(extend(section, updates), key) == match last_entry(updates, key) {
                        Some(v) => Some(v),
                        None => lookup(section, key),
                    }
                },
                _ => false,
            },
            (_, r) => r is Err,
        },
{
    if let JsonV::Obj(es) = data {
        if let Some(JsonV::Obj(section)) = lookup(es, "openapi"@) {
            law_read_after_write(es, "openapi"@, JsonV::Obj(extend(section, updates)), key);
            law_extend_reads(section, updates, key);
        }
    }
}

/// A request goes only to the origin of the client's base URL: the URL it is
/// sent to has the base URL's scheme, host and port.
pub proof fn law_requests_stay_on_origin(root: Seq<char>, origin: UrlView, spec: RequestView)
    ensures
        request_target(root, origin, spec) matches Ok(u) ==> (parsed_url(u) matches Ok(v) && v.scheme
            == origin.scheme && v.host == origin.host && v.port == origin.port),
{
}

/// A request that needs a token and has none (or an empty one) is refused
/// before its method or path is looked at.
pub proof fn law_token_checked_first(root: Seq<char>, origin: UrlView, spec: RequestView)
    ensures
        spec.auth_required && no_token(spec.token) ==> request_target(root, origin, spec) == Err::<Seq<char>, Seq<char>>(
            "调用 OpenAPI 需要 access-token 或 client-token"@,
        ),
{
}

/// The excerpt of a reply body shown in an error is at most 2000 characters
/// and the mark of the cut.
pub proof fn law_excerpt_bounded(body: Seq<char>)
    ensures
        excerpt(body).len() <= 2008,
        body.len() <= 2000 ==> excerpt(body) == body,
{
    reveal_strlit("…（响应已截断）");
}

/// Whether a subcommand writes on the platform.
pub open spec fn writes(cmd: ApiCommand) -> bool {
    cmd is CommentReply || cmd is ImMessageSend
}

/// The confirmation flag of a writing subcommand.
pub open spec fn confirmed(cmd: ApiCommand) -> bool {
    match cmd {
        ApiCommand::CommentReply { yes, .. } => yes,
        ApiCommand::ImMessageSend { yes, .. } => yes,
        _ => true,
    }
}

/// A subcommand that writes asks before it sends unless `--yes` was given;
/// one that only reads never asks.
pub proof fn law_writes_ask_first(
    cmd: ApiCommand,
    root: Seq<char>,
    origin: UrlView,
    saved: Result<Seq<(Seq<char>, JsonV)>, Seq<char>>,
)
    ensures
        api_plan(cmd, root, origin, saved) matches Ok(ActionView::Send(confirm, _)) ==> (confirm is Some <==> (writes(
            cmd,
        ) && !confirmed(cmd))),
{
}

/// The offline text tools neither read the saved authorization nor reach
/// the platform: their result is the same whatever is saved.
pub proof fn law_offline_tools_need_no_authorization(
    name: Seq<char>,
    args: Seq<(Seq<char>, JsonV)>,
    saved: Result<Seq<(Seq<char>, JsonV)>, Seq<char>>,
    other: Result<Seq<(Seq<char>, JsonV)>, Seq<char>>,
)
    requires
        name == "hot_words"@ || name == "hot_memes"@ || name == "demand_discovery"@,
    ensures
        tool_step(name, args, saved) == tool_step(name, args, other),
        tool_step(name, args, saved) is Done,
{
}

/// An offline text tool called with a list of texts (and valid `top` and
/// `min_count`, 20 and 2 when absent) reports the number of texts and its own
/// part of the analysis of the texts, each an unweighted record.
pub proof fn law_insights_tool_result(
    name: Seq<char>,
    args: Seq<(Seq<char>, JsonV)>,
    saved: Result<Seq<(Seq<char>, JsonV)>, Seq<char>>,
    items: Seq<JsonV>,
    top: u64,
    min_count: u64,
)
    requires
        name == "hot_words"@ || name == "hot_memes"@ || name == "demand_discovery"@,
        lookup(args, "texts"@) == Some(JsonV::Arr(items)),
        all_texts(items),
        count_arg(args, "top"@, 20) == Ok::<u64, Seq<char>>(top),
        positive_arg(args, "min_count"@, 2) == Ok::<u64, Seq<char>>(min_count),
    ensures
        ({
            let result = analysis(text_records(items), top as nat, min_count);
            let key = insight_key(name);
            &&& result.get(key) is Some
            &&& tool_step(name, args, saved) == StepView::Done(
                Ok(
                    JsonV::Obj(
                        set_entry(
                            set_entry(Seq::empty(), "input_count"@, JsonV::UInt(items.len() as u64)),
                            key,
                            result.get(key).unwrap(),
                        ),
                    ),
                ),
            )
        }),
{
    let records = text_records(items);
    let result = analysis(records, top as nat, min_count);
    let key = insight_key(name);
    reveal_strlit("hot_words");
    reveal_strlit("hot_memes");
    reveal_strlit("demands");
    reveal_strlit("input_count");
    reveal_strlit("demand_discovery");
    if let JsonV::Obj(es) = result {
        assert(es[0].0 == "demands"@);
        assert(es[1].0 == "hot_memes"@);
        assert(es[2].0 == "hot_words"@);
        assert(es[3].0 == "input_count"@);
        assert(es.drop_first()[0] == es[1]);
        assert(es.drop_first().drop_first()[0] == es[2]);
        assert(es.drop_first().drop_first().drop_first()[0] == es[3]);
        assert(lookup(es, "input_count"@) == Some(JsonV::UInt(records.len() as u64))) by {
            reveal_with_fuel(lookup, 5);
        }
        assert(lookup(es, key) is Some) by {
            reveal_with_fuel(lookup, 5);
        }
    }
}

/// The `texts` argument of an offline tool is a list of strings.
pub open spec fn texts_given(args: Seq<(Seq<char>, JsonV)>) -> bool {
    match lookup(args, "texts"@) {
        Some(JsonV::Arr(items)) => all_texts(items),
        _ => false,
    }
}

/// An offline text tool refuses, as an execution error, `texts` that is not
/// a list of strings, then an invalid `top`, then an invalid `min_count`.
pub proof fn law_insights_tool_refusals(
    name: Seq<char>,
    args: Seq<(Seq<char>, JsonV)>,
    saved: Result<Seq<(Seq<char>, JsonV)>, Seq<char>>,
)
    requires
        name == "hot_words"@ || name == "hot_memes"@ || name == "demand_discovery"@,
    ensures
        !texts_given(args) ==> tool_step(name, args, saved) == StepView::Done(
            Err(ToolFailure::Execution("texts 必须是字符串数组"@)),
        ),
        texts_given(args) && count_arg(args, "top"@, 20) is Err ==> tool_step(name, args, saved) == StepView::Done(
            Err(ToolFailure::Execution(count_arg(args, "top"@, 20)->Err_0)),
        ),
        texts_given(args) && count_arg(args, "top"@, 20) is Ok && positive_arg(args, "min_count"@, 2) is Err
            ==> tool_step(name, args, saved) == StepView::Done(
            Err(ToolFailure::Execution(positive_arg(args, "min_count"@, 2)->Err_0)),
        ),
{
}

/// A message without an ID (a notification) is never answered, alone or in
/// a batch.
pub proof fn law_notifications_unanswered(
    request: JsonV,
    version: Seq<char>,
    saved: Result<Seq<(Seq<char>, JsonV)>, Seq<char>>,
)
    ensures
        !(request is Arr) && request.get("id"@) is None ==> reply_to(request, version, saved) == ReplyView::Silent,
{
}

/// An OAuth callback gives a code only when the `state` it carries is the
/// expected one.
pub proof fn law_callback_checks_state(request: Seq<char>, state: Seq<char>)
    ensures
        callback_of(request, Some(state)).result is Ok ==> (first_line(request) matches Some(l) && (nth_word(l, 1) matches Some(
            t,
        ) && (parsed_url("http://localhost"@ + t) matches Ok(v) && last_value(v.query, "state"@) == Some(state)))),
{
}

/// A paged crawl below its limit never collects more than the limit, and
/// stops exactly when it reaches it; what was collected before stays first.
pub proof fn law_page_results_within_limit(results: Seq<JsonV>, items: Seq<JsonV>, kind: CrawlType, limit: nat)
    requires
        limit > 0,
        results.len() < limit,
    ensures
        absorb(results, items, kind, limit).0.len() <= limit,
        absorb(results, items, kind, limit).1 ==> absorb(results, items, kind, limit).0.len() == limit,
        absorb(results, items, kind, limit).0.len() >= results.len(),
        absorb(results, items, kind, limit).0.take(results.len() as int) == results,
    decreases items.len(),
{
    if items.len() > 0 {
        let next = match crate::pages::listed_record(items[0], kind) {
            Some(r) => results.push(r),
            None => results,
        };
        if !(next.len() >= limit) {
            law_page_results_within_limit(next, items.drop_first(), kind, limit);
            assert(next.take(results.len() as int) =~= results);
            let out = absorb(next, items.drop_first(), kind, limit).0;
            assert(out.take(results.len() as int) =~= out.take(next.len() as int).take(results.len() as int));
        } else {
            assert(next.take(results.len() as int) =~= results);
        }
    }
}

/// A comment crawl below its limit takes no more comments than the limit.
pub proof fn law_comments_within_limit(len: nat, taken: nat, limit: nat)
    requires
        limit > 0,
        taken < limit,
    ensures
        taken + accepted_count(len, taken, limit) <= limit,
        accepted_count(len, taken, limit) <= len,
{
}

/// A reply that asks for a captcha never decides a login either way: the
/// probe says nothing, and the cookie is then reported as logged in only on
/// the other probe's word, never as logged out.
pub proof fn law_captcha_never_decides(status_ok: bool, body: JsonV, other: Option<bool>)
    requires
        status_ok,
        has_verify_check(body),
    ensures
        web_verdict(status_ok, body) is None,
        sso_verdict(status_ok, body) is None,
        login_verdict(web_verdict(status_ok, body), other) == (if other == Some(true) {
            Some(true)
        } else {
            None::<bool>
        }),
        login_verdict(other, sso_verdict(status_ok, body)) == (if other == Some(true) {
            Some(true)
        } else {
            None::<bool>
        }),
{
}

proof fn lemma_trim_start_push_ws(x: Seq<char>, w: char)
    requires
        is_ws(w),
    ensures
        trim_start(x.push(w)) == (if trim_start(x).len() == 0 {
            Seq::<char>::empty()
        } else {
            trim_start(x).push(w)
        }),
    decreases x.len(),
{
    if x.len() == 0 {
        assert(x.push(w)[0] == w);
        assert(x.push(w).drop_first() =~= Seq::<char>::empty());
        assert(trim_start(Seq::<char>::empty()) == Seq::<char>::empty());
    } else if is_ws(x[0]) {
        assert(x.push(w)[0] == x[0]);
        assert(x.push(w).drop_first() =~= x.drop_first().push(w));
        lemma_trim_start_push_ws(x.drop_first(), w);
    } else {
        assert(x.push(w)[0] == x[0]);
    }
}

proof fn lemma_trim_push_ws(x: Seq<char>, w: char)
    requires
        is_ws(w),
    ensures
        trim(x.push(w)) == trim(x),
{
    lemma_trim_start_push_ws(x, w);
    if trim_start(x).len() > 0 {
        assert(trim_start(x).push(w).drop_last() =~= trim_start(x));
    }
}

proof fn lemma_trim_prepend_ws(x: Seq<char>, w: char)
    requires
        is_ws(w),
    ensures
        trim(seq![w] + x) == trim(x),
{
    assert((seq![w] + x).drop_first() =~= x);
}

proof fn lemma_split_nonempty(s: Seq<char>, sep: char)
    ensures
        split_char(s, sep).len() > 0,
    decreases s.len(),
{
    if s.len() > 0 {
        lemma_split_nonempty(s.drop_last(), sep);
    }
}

proof fn lemma_fold_update_last(items: Seq<Seq<char>>, y: Seq<char>)
    requires
        items.len() > 0,
        cookie_pair(y) == cookie_pair(items.last()),
    ensures
        cookie_fold(items.update(items.len() - 1, y)) == cookie_fold(items),
{
    let u = items.update(items.len() - 1, y);
    assert(u.drop_last() =~= items.drop_last());
}

proof fn lemma_fold_update_first(items: Seq<Seq<char>>, y: Seq<char>)
    requires
        items.len() > 0,
        cookie_pair(y) == cookie_pair(items[0]),
    ensures
        cookie_fold(items.update(0, y)) == cookie_fold(items),
    decreases items.len(),
{
    let u = items.update(0, y);
    if items.len() == 1 {
        assert(u.drop_last() =~= items.drop_last());
    } else {
        lemma_fold_update_first(items.drop_last(), y);
        assert(u.drop_last() =~= items.drop_last().update(0, y));
    }
}

proof fn lemma_map_push_ws(s: Seq<char>, w: char)
    requires
        is_ws(w),
    ensures
        cookie_map(s.push(w)) == cookie_map(s),
{
    let sp = split_char(s, ';');
    lemma_split_nonempty(s, ';');
    assert(s.push(w).drop_last() =~= s);
    assert(split_char(s.push(w), ';') == sp.update(sp.len() - 1, sp.last().push(w)));
    lemma_trim_push_ws(sp.last(), w);
    lemma_fold_update_last(sp, sp.last().push(w));
}

proof fn lemma_map_trim_end(s: Seq<char>)
    ensures
        cookie_map(trim_end(s)) == cookie_map(s),
    decreases s.len(),
{
    if s.len() > 0 && is_ws(s.last()) {
        lemma_map_trim_end(s.drop_last());
        lemma_map_push_ws(s.drop_last(), s.last());
        assert(s.drop_last().push(s.last()) =~= s);
    }
}

proof fn lemma_split_prepend(w: char, t: Seq<char>, sep: char)
    requires
        w != sep,
    ensures
        split_char(seq![w] + t, sep) == split_char(t, sep).update(0, seq![w] + split_char(t, sep)[0]),
    decreases t.len(),
{
    lemma_split_nonempty(t, sep);
    if t.len() == 0 {
        assert(seq![w] + t =~= seq![w]);
        assert(seq![w].drop_last() =~= Seq::<char>::empty());
        assert(seq![w].last() == w);
        assert(split_char(Seq::<char>::empty(), sep) == seq![Seq::<char>::empty()]);
        assert(Seq::<char>::empty().push(w) =~= seq![w] + Seq::<char>::empty());
        assert(split_char(seq![w] + t, sep) =~= split_char(t, sep).update(0, seq![w] + split_char(t, sep)[0]));
    } else {
        let p = t.drop_last();
        let x = t.last();
        lemma_split_prepend(w, p, sep);
        lemma_split_nonempty(p, sep);
        assert((seq![w] + t).drop_last() =~= seq![w] + p);
        assert((seq![w] + t).last() == x);
        let rp = split_char(p, sep);
        if x == sep {
            assert(split_char(seq![w] + t, sep) =~= split_char(t, sep).update(0, seq![w] + split_char(t, sep)[0]));
        } else {
            if rp.len() == 1 {
                assert((seq![w] + rp[0]).push(x) =~= seq![w] + rp[0].push(x));
            }
            assert(split_char(seq![w] + t, sep) =~= split_char(t, sep).update(0, seq![w] + split_char(t, sep)[0]));
        }
    }
}

proof fn lemma_map_trim_start(s: Seq<char>)
    ensures
        cookie_map(trim_start(s)) == cookie_map(s),
    decreases s.len(),
{
    if s.len() > 0 && is_ws(s[0]) {
        let t = s.drop_first();
        lemma_map_trim_start(t);
        assert(seq![s[0]] + t =~= s);
        lemma_split_prepend(s[0], t, ';');
        lemma_split_nonempty(t, ';');
        let st = split_char(t, ';');
        lemma_trim_prepend_ws(st[0], s[0]);
        lemma_fold_update_first(st, seq![s[0]] + st[0]);
    }
}

/// No `=` in the text.
spec fn no_eq(s: Seq<char>) -> bool {
    forall|i: int| 0 <= i < s.len() ==> #[trigger] s[i] != '='
}

proof fn lemma_no_eq_split(s: Seq<char>)
    requires
        no_eq(s),
    ensures
        forall|j: int| 0 <= j < split_char(s, ';').len() ==> no_eq(#[trigger] split_char(s, ';')[j]),
    decreases s.len(),
{
    if s.len() > 0 {
        let p = s.drop_last();
        assert(no_eq(p)) by {
            assert(forall|i: int| 0 <= i < p.len() ==> p[i] == s[i]);
        }
        lemma_no_eq_split(p);
        lemma_split_nonempty(p, ';');
        let rp = split_char(p, ';');
        assert(s[s.len() - 1] != '=');
        if s.last() != ';' {
            let l = rp.last().push(s.last());
            assert(no_eq(rp[rp.len() - 1]));
            assert(no_eq(l)) by {
                assert(forall|i: int| 0 <= i < rp.last().len() ==> l[i] == rp.last()[i]);
            }
        }
    }
}

proof fn lemma_no_eq_trim(s: Seq<char>)
    requires
        no_eq(s),
    ensures
        no_eq(trim(s)),
{
    lemma_no_eq_trim_start(s);
    lemma_no_eq_trim_end(trim_start(s));
}

proof fn lemma_no_eq_trim_start(s: Seq<char>)
    requires
        no_eq(s),
    ensures
        no_eq(trim_start(s)),
    decreases s.len(),
{
    if s.len() > 0 && is_ws(s[0]) {
        assert(forall|i: int| 0 <= i < s.drop_first().len() ==> s.drop_first()[i] == s[i + 1]);
        lemma_no_eq_trim_start(s.drop_first());
    }
}

proof fn lemma_no_eq_trim_end(s: Seq<char>)
    requires
        no_eq(s),
    ensures
        no_eq(trim_end(s)),
    decreases s.len(),
{
    if s.len() > 0 && is_ws(s.last()) {
        assert(forall|i: int| 0 <= i < s.drop_last().len() ==> s.drop_last()[i] == s[i]);
        lemma_no_eq_trim_end(s.drop_last());
    }
}

proof fn lemma_no_eq_no_pair(item: Seq<char>)
    requires
        no_eq(item),
    ensures
        cookie_pair(item) is None,
{
    lemma_no_eq_trim(item);
    let t = trim(item);
    lemma_find_facts(t, seq!['=']);
    if let Some(i) = find(t, seq!['=']) {
        assert(t.subrange(i, i + 1) == seq!['=']);
        assert(t[i] == t.subrange(i, i + 1)[0]);
    }
}

proof fn lemma_fold_key_has_pair(items: Seq<Seq<char>>, k: Seq<char>)
    requires
        cookie_fold(items).contains_key(k),
    ensures
        exists|j: int| 0 <= j < items.len() && #[trigger] cookie_pair(items[j]) is Some,
    decreases items.len(),
{
    if cookie_pair(items.last()) is Some {
        assert(cookie_pair(items[items.len() - 1]) is Some);
    } else {
        lemma_fold_key_has_pair(items.drop_last(), k);
        let j = choose|j: int| 0 <= j < items.drop_last().len() && #[trigger] cookie_pair(items.drop_last()[j]) is Some;
        assert(items.drop_last()[j] == items[j]);
    }
}

proof fn lemma_key_needs_eq(t: Seq<char>, k: Seq<char>)
    requires
        cookie_map(t).contains_key(k),
    ensures
        t.len() > 0,
        contains(t, seq!['=']),
{
    let items = split_char(t, ';');
    lemma_fold_key_has_pair(items, k);
    if !contains(t, seq!['=']) {
        lemma_find_facts(t, seq!['=']);
        assert(no_eq(t)) by {
            assert forall|i: int| 0 <= i < t.len() implies #[trigger] t[i] != '=' by {
                if t[i] == '=' {
                    assert(t.subrange(i, i + 1) =~= seq!['=']);
                    assert(occurs_at(t, seq!['='], i));
                }
            }
        }
        lemma_no_eq_split(t);
        let j = choose|j: int| 0 <= j < items.len() && #[trigger] cookie_pair(items[j]) is Some;
        lemma_no_eq_no_pair(items[j]);
    }
    if t.len() == 0 {
        assert(!contains(t, seq!['=']));
    }
}

/// A cookie passes the format check exactly when the pairs it parses into
/// hold a `sessionid` or `ttwid` key (in any ASCII case); a key only counts
/// with a non-empty value.
pub proof fn law_validate_has_login_key(cookie: Seq<char>)
    ensures
        cookie_valid(cookie) <==> exists|k: Seq<char>| cookie_map(cookie).contains_key(k) && is_login_key(k),
{
    let t = trim(cookie);
    lemma_map_trim_start(cookie);
    lemma_map_trim_end(trim_start(cookie));
    assert(cookie_map(t) == cookie_map(cookie));
    if exists|k: Seq<char>| cookie_map(cookie).contains_key(k) && is_login_key(k) {
        let k = choose|k: Seq<char>| cookie_map(cookie).contains_key(k) && is_login_key(k);
        lemma_key_needs_eq(t, k);
    }
}

/// `key_lt` never holds of a key and itself.
pub proof fn lemma_key_lt_irreflexive(a: Seq<char>)
    ensures
        !key_lt(a, a),
    decreases a.len(),
{
    if a.len() > 0 {
        assert(a.drop_first() == a.drop_first());
        lemma_key_lt_irreflexive(a.drop_first());
    }
}

/// `key_lt` holds of two different keys one way round, never both.
pub proof fn lemma_key_lt_total(a: Seq<char>, b: Seq<char>)
    ensures
        a != b ==> key_lt(a, b) || key_lt(b, a),
        !(key_lt(a, b) && key_lt(b, a)),
    decreases a.len(),
{
    if a.len() > 0 && b.len() > 0 && a[0] == b[0] {
        lemma_key_lt_total(a.drop_first(), b.drop_first());
        if a != b {
            assert(a =~= seq![a[0]] + a.drop_first());
            assert(b =~= seq![b[0]] + b.drop_first());
        }
    } else if a.len() == 0 && b.len() == 0 {
        assert(a =~= b);
    }
}

/// `key_lt` is transitive.
pub proof fn lemma_key_lt_transitive(a: Seq<char>, b: Seq<char>, c: Seq<char>)
    ensures
        key_lt(a, b) && key_lt(b, c) ==> key_lt(a, c),
    decreases a.len(),
{
    if a.len() > 0 && b.len() > 0 && c.len() > 0 {
        lemma_key_lt_transitive(a.drop_first(), b.drop_first(), c.drop_first());
    }
}

/// Whether a list is in descending order of `id` text.
pub open spec fn desc_sorted(s: Seq<JsonV>) -> bool {
    forall|i: int, j: int| 0 <= i < j < s.len() ==> !key_lt(#[trigger] id_key(s[i]), #[trigger] id_key(s[j]))
}

/// Where [`insert_desc`] puts `x`.
pub open spec fn insert_at(s: Seq<JsonV>, x: JsonV) -> int
    decreases s.len(),
{
    if s.len() == 0 || key_lt(id_key(s[0]), id_key(x)) {
        0
    } else {
        1 + insert_at(s.drop_first(), x)
    }
}

proof fn lemma_insert_desc_at(s: Seq<JsonV>, x: JsonV)
    ensures
        0 <= insert_at(s, x) <= s.len(),
        insert_desc(s, x) == s.insert(insert_at(s, x), x),
    decreases s.len(),
{
    if s.len() > 0 && !key_lt(id_key(s[0]), id_key(x)) {
        lemma_insert_desc_at(s.drop_first(), x);
        assert(insert_desc(s, x) =~= s.insert(insert_at(s, x), x));
    } else if s.len() > 0 {
        assert(insert_desc(s, x) =~= s.insert(0, x));
    } else {
        assert(insert_desc(s, x) =~= s.insert(0, x));
    }
}

proof fn lemma_insert_desc_sorted(s: Seq<JsonV>, x: JsonV)
    requires
        desc_sorted(s),
    ensures
        desc_sorted(insert_desc(s, x)),
    decreases s.len(),
{
    if s.len() == 0 {
        return;
    }
    if key_lt(id_key(s[0]), id_key(x)) {
        let r = seq![x] + s;
        assert forall|i: int, j: int| 0 <= i < j < r.len() implies !key_lt(#[trigger] id_key(r[i]), #[trigger] id_key(r[j])) by {
            if i == 0 {
                if j - 1 > 0 {
                    assert(!key_lt(id_key(s[0]), id_key(s[j - 1])));
                }
                lemma_key_lt_total(id_key(s[0]), id_key(s[j - 1]));
                lemma_key_lt_total(id_key(x), id_key(s[j - 1]));
                lemma_key_lt_transitive(id_key(x), id_key(s[j - 1]), id_key(s[0]));
                lemma_key_lt_total(id_key(x), id_key(s[0]));
                if id_key(s[j - 1]) == id_key(s[0]) {
                    lemma_key_lt_total(id_key(s[0]), id_key(x));
                }
            } else {
                assert(r[i] == s[i - 1] && r[j] == s[j - 1]);
            }
        }
    } else {
        let rest = s.drop_first();
        assert(desc_sorted(rest)) by {
            assert forall|i: int, j: int| 0 <= i < j < rest.len() implies !key_lt(#[trigger] id_key(rest[i]), #[trigger] id_key(rest[j])) by {
                assert(rest[i] == s[i + 1] && rest[j] == s[j + 1]);
            }
        }
        lemma_insert_desc_sorted(rest, x);
        lemma_insert_desc_at(rest, x);
        let t = insert_desc(rest, x);
        let p = insert_at(rest, x);
        let r = seq![s[0]] + t;
        assert forall|i: int, j: int| 0 <= i < j < r.len() implies !key_lt(#[trigger] id_key(r[i]), #[trigger] id_key(r[j])) by {
            if i == 0 {
                let m = j - 1;
                assert(r[j] == t[m]);
                if m < p {
                    assert(t[m] == rest[m]);
                    assert(rest[m] == s[m + 1]);
                } else if m == p {
                    assert(t[m] == x);
                } else {
                    assert(t[m] == rest[m - 1]);
                    assert(rest[m - 1] == s[m]);
                }
            } else {
                assert(r[i] == t[i - 1] && r[j] == t[j - 1]);
            }
        }
        assert(insert_desc(s, x) == r);
    }
}

/// Sorting saved works by `id`: the result is in descending order and holds
/// exactly the works sorted.
pub proof fn law_sort_desc(s: Seq<JsonV>)
    ensures
        desc_sorted(sort_desc(s)),
        sort_desc(s).to_multiset() == s.to_multiset(),
        sort_desc(s).len() == s.len(),
    decreases s.len(),
{
    broadcast use vstd::seq_lib::group_to_multiset_ensures;

    if s.len() > 0 {
        law_sort_desc(s.drop_last());
        let sorted = sort_desc(s.drop_last());
        lemma_insert_desc_sorted(sorted, s.last());
        lemma_insert_desc_at(sorted, s.last());
        vstd::seq_lib::to_multiset_insert(sorted, insert_at(sorted, s.last()), s.last());
        assert(s =~= s.drop_last().push(s.last()));
        vstd::seq_lib::to_multiset_build(s.drop_last(), s.last());
    } else {
        assert(sort_desc(s) =~= s);
    }
}

/// The value of the last `key=value` argument with `key`.
pub open spec fn last_arg(values: Seq<Seq<char>>, key: Seq<char>) -> Option<Seq<char>>
    decreases values.len(),
{
    if values.len() == 0 {
        None
    } else {
        match crate::text::split_once(values.last(), '=') {
            Some((k, v)) => if k == key {
                Some(v)
            } else {
                last_arg(values.drop_last(), key)
            },
            None => last_arg(values.drop_last(), key),
        }
    }
}

/// Whether no key occurs twice.
pub open spec fn unique_keys(p: Seq<(Seq<char>, Seq<char>)>) -> bool {
    forall|i: int, j: int| 0 <= i < j < p.len() ==> #[trigger] p[i].0 != #[trigger] p[j].0
}

/// The value of `key` among pairs with unique keys.
pub open spec fn pair_value(p: Seq<(Seq<char>, Seq<char>)>, key: Seq<char>) -> Option<Seq<char>> {
    match first_key(p, key) {
        Some(i) => Some(p[i].1),
        None => None,
    }
}

proof fn lemma_put_pair(p: Seq<(Seq<char>, Seq<char>)>, k: Seq<char>, v: Seq<char>, key: Seq<char>)
    requires
        unique_keys(p),
    ensures
        unique_keys(put_pair(p, k, v)),
        pair_value(put_pair(p, k, v), key) == if key == k {
            Some(v)
        } else {
            pair_value(p, key)
        },
{
    crate::api::lemma_first_key_bounds(p, k);
    crate::api::lemma_first_key_bounds(p, key);
    let q = put_pair(p, k, v);
    crate::api::lemma_first_key_bounds(q, key);
    match first_key(p, k) {
        Some(i) => {
            assert(q == p.update(i, (k, v)));
            assert forall|a: int, b: int| 0 <= a < b < q.len() implies #[trigger] q[a].0 != #[trigger] q[b].0 by {
                assert(p[a].0 != p[b].0);
            }
            if key == k {
                lemma_first_key_unique(q, key, i);
            } else {
                match first_key(p, key) {
                    Some(j) => {
                        lemma_first_key_unique(q, key, j);
                    },
                    None => {
                        assert forall|j: int| 0 <= j < q.len() implies q[j].0 != key by {}
                        lemma_first_key_none(q, key);
                    },
                }
            }
        },
        None => {
            assert(q == p.push((k, v)));
            assert forall|a: int, b: int| 0 <= a < b < q.len() implies #[trigger] q[a].0 != #[trigger] q[b].0 by {
                if b == p.len() {
                    assert(p[a].0 != k);
                } else {
                    assert(p[a].0 != p[b].0);
                }
            }
            crate::api::lemma_first_key_push(p, (k, v), key);
        },
    }
}

proof fn lemma_first_key_unique(p: Seq<(Seq<char>, Seq<char>)>, key: Seq<char>, i: int)
    requires
        unique_keys(p),
        0 <= i < p.len(),
        p[i].0 == key,
    ensures
        first_key(p, key) == Some(i),
{
    crate::api::lemma_first_key_bounds(p, key);
    if let Some(j) = first_key(p, key) {
        if j != i {
            if j < i {
                assert(p[j].0 != p[i].0);
            } else {
                assert(p[i].0 != p[j].0);
            }
        }
    }
}

proof fn lemma_first_key_none(p: Seq<(Seq<char>, Seq<char>)>, key: Seq<char>)
    requires
        forall|j: int| 0 <= j < p.len() ==> p[j].0 != key,
    ensures
        first_key(p, key) is None,
{
    crate::api::lemma_first_key_bounds(p, key);
}

/// `key=value` arguments: no key is kept twice, and each key has the value
/// of its last argument.
pub proof fn law_key_values_last_wins(values: Seq<Seq<char>>, key: Seq<char>)
    ensures
        key_values(values) matches Ok(p) ==> unique_keys(p) && pair_value(p, key) == last_arg(values, key),
    decreases values.len(),
{
    if values.len() > 0 {
        law_key_values_last_wins(values.drop_last(), key);
        if let Ok(acc) = key_values(values.drop_last()) {
            if let Some((k, v)) = crate::text::split_once(values.last(), '=') {
                if k.len() > 0 {
                    lemma_put_pair(acc, k, v, key);
                }
            }
        }
    }
}

/// The number of UTF-8 bytes of a text.
pub open spec fn byte_len(s: Seq<char>) -> nat
    decreases s.len(),
{
    if s.len() == 0 {
        0
    } else {
        utf8_len(s[0]) + byte_len(s.drop_first())
    }
}

proof fn lemma_byte_len_concat(a: Seq<char>, b: Seq<char>)
    ensures
        byte_len(a + b) == byte_len(a) + byte_len(b),
    decreases a.len(),
{
    if a.len() == 0 {
        assert(a + b =~= b);
    } else {
        lemma_byte_len_concat(a.drop_first(), b);
        assert((a + b).drop_first() =~= a.drop_first() + b);
    }
}

proof fn lemma_byte_len_fit(s: Seq<char>, n: nat)
    ensures
        fit_len(s, n) <= s.len(),
        byte_len(s.take(fit_len(s, n) as int)) <= n,
    decreases s.len(),
{
    if s.len() == 0 || utf8_len(s[0]) > n {
        assert(s.take(0) =~= Seq::<char>::empty());
    } else {
        let m = (n - utf8_len(s[0])) as nat;
        lemma_byte_len_fit(s.drop_first(), m);
        let k = fit_len(s.drop_first(), m);
        assert(s.take((k + 1) as int).drop_first() =~= s.drop_first().take(k as int));
    }
}

proof fn lemma_byte_len_whole_fit(s: Seq<char>, n: nat)
    requires
        fit_len(s, n) == s.len(),
    ensures
        byte_len(s) <= n,
{
    lemma_byte_len_fit(s, n);
    assert(s.take(s.len() as int) =~= s);
}

proof fn lemma_byte_len_trim_start(s: Seq<char>)
    ensures
        byte_len(crate::text::trim_start(s)) <= byte_len(s),
    decreases s.len(),
{
    if s.len() > 0 && crate::text::is_ws(s[0]) {
        lemma_byte_len_trim_start(s.drop_first());
    }
}

proof fn lemma_byte_len_drop_last(s: Seq<char>)
    requires
        s.len() > 0,
    ensures
        byte_len(s) == byte_len(s.drop_last()) + utf8_len(s.last()),
{
    lemma_byte_len_concat(s.drop_last(), seq![s.last()]);
    assert(s.drop_last() + seq![s.last()] =~= s);
    assert(seq![s.last()].drop_first() =~= Seq::<char>::empty());
    assert(byte_len(seq![s.last()]) == utf8_len(s.last()) + byte_len(seq![s.last()].drop_first()));
}

proof fn lemma_byte_len_trim_end(s: Seq<char>)
    ensures
        byte_len(crate::text::trim_end(s)) <= byte_len(s),
    decreases s.len(),
{
    if s.len() > 0 && crate::text::is_ws(s.last()) {
        lemma_byte_len_trim_end(s.drop_last());
        lemma_byte_len_drop_last(s);
    }
}

/// A file name made from a title fits in the byte budget it was cut to,
/// when the budget leaves room for the `...` of a cut.
pub proof fn law_sanitized_fits(text: Seq<char>, max_bytes: nat)
    requires
        max_bytes >= 3,
    ensures
        byte_len(sanitized(text, max_bytes)) <= max_bytes,
{
    let collapsed = crate::text::collapse_ws(crate::crawler::drop_forbidden(crate::text::trim(text)));
    let source = if collapsed.len() == 0 {
        "无标题"@
    } else {
        collapsed
    };
    if fit_len(source, max_bytes) == source.len() {
        lemma_byte_len_whole_fit(source, max_bytes);
    } else {
        let end = (max_bytes - 3) as nat;
        let head = source.take(fit_len(source, end) as int);
        lemma_byte_len_fit(source, end);
        lemma_byte_len_trim_start(head);
        lemma_byte_len_trim_end(crate::text::trim_start(head));
        lemma_byte_len_concat(crate::text::trim(head), "..."@);
        reveal_strlit("...");
        assert(byte_len("..."@) == 3) by {
            let d = seq!['.', '.', '.'];
            assert("..."@ =~= d);
            assert(d.drop_first() =~= seq!['.', '.']);
            assert(d.drop_first().drop_first() =~= seq!['.']);
            assert(d.drop_first().drop_first().drop_first() =~= Seq::<char>::empty());
            reveal_with_fuel(byte_len, 4);
        }
    }
}

/// A file name as `sanitized` leaves it: no forbidden or control character,
/// spaces as its only whitespace, none at either end and never two in a row.
pub open spec fn tidy(s: Seq<char>) -> bool {
    &&& forall|i: int| 0 <= i < s.len() ==> !is_forbidden(#[trigger] s[i]) && (is_ws(s[i]) ==> s[i] == ' ')
    &&& s.len() > 0 ==> !is_ws(s[0]) && !is_ws(s.last())
    &&& forall|i: int, j: int|
        #![trigger s[i], s[j]]
        0 <= i && j == i + 1 && j < s.len() ==> !(is_ws(s[i]) && is_ws(s[j]))
}

proof fn lemma_tidy_push(a: Seq<char>, c: char)
    requires
        tidy(a),
        !is_ws(c),
        !is_forbidden(c),
    ensures
        tidy(a.push(c)),
{
    let r = a.push(c);
    assert forall|i: int| 0 <= i < r.len() implies !is_forbidden(#[trigger] r[i]) && (is_ws(r[i]) ==> r[i] == ' ') by {
        if i < a.len() {
            assert(r[i] == a[i]);
        }
    }
    assert forall|i: int, j: int| 0 <= i && j == i + 1 && j < r.len() implies !(is_ws(#[trigger] r[i]) && is_ws(
        #[trigger] r[j],
    )) by {
        if j < a.len() {
            assert(r[i] == a[i] && r[j] == a[j]);
        }
    }
}

proof fn lemma_tidy_push_space(a: Seq<char>, c: char)
    requires
        tidy(a),
        a.len() > 0,
        !is_ws(c),
        !is_forbidden(c),
    ensures
        tidy(a.push(' ').push(c)),
{
    let m = a.push(' ');
    let r = m.push(c);
    assert(!is_forbidden(' ') && is_ws(' '));
    assert forall|i: int| 0 <= i < r.len() implies !is_forbidden(#[trigger] r[i]) && (is_ws(r[i]) ==> r[i] == ' ') by {
        if i < a.len() {
            assert(r[i] == a[i]);
        }
    }
    assert forall|i: int, j: int| 0 <= i && j == i + 1 && j < r.len() implies !(is_ws(#[trigger] r[i]) && is_ws(
        #[trigger] r[j],
    )) by {
        if j < a.len() {
            assert(r[i] == a[i] && r[j] == a[j]);
        } else if j == a.len() {
            assert(r[i] == a.last());
        }
    }
}

proof fn lemma_drop_forbidden_clean(s: Seq<char>)
    ensures
        forall|i: int| 0 <= i < drop_forbidden(s).len() ==> !is_forbidden(#[trigger] drop_forbidden(s)[i]),
    decreases s.len(),
{
    if s.len() > 0 {
        lemma_drop_forbidden_clean(s.drop_last());
        let d = drop_forbidden(s.drop_last());
        if !is_forbidden(s.last()) {
            assert forall|i: int| 0 <= i < d.push(s.last()).len() implies !is_forbidden(
                #[trigger] d.push(s.last())[i],
            ) by {
                if i < d.len() {
                    assert(d.push(s.last())[i] == d[i]);
                }
            }
        }
    }
}

proof fn lemma_collapse_tidy(s: Seq<char>)
    requires
        forall|i: int| 0 <= i < s.len() ==> !is_forbidden(#[trigger] s[i]),
    ensures
        tidy(collapse_ws(s)),
    decreases s.len(),
{
    if s.len() > 0 {
        let p = s.drop_last();
        let c = s.last();
        assert(forall|i: int| 0 <= i < p.len() ==> p[i] == s[i]);
        lemma_collapse_tidy(p);
        assert(!is_forbidden(c)) by {
            assert(s[s.len() - 1] == c);
        }
        if is_ws(c) {
        } else if p.len() > 0 && !is_ws(p.last()) {
            lemma_tidy_push(collapse_ws(p), c);
        } else if collapse_ws(p).len() == 0 {
            lemma_tidy_push(Seq::<char>::empty(), c);
            assert(Seq::<char>::empty().push(c) =~= seq![c]);
        } else {
            lemma_tidy_push_space(collapse_ws(p), c);
        }
    }
}

proof fn lemma_collapse_fixed(s: Seq<char>)
    requires
        tidy(s),
    ensures
        collapse_ws(s) == s,
    decreases s.len(),
{
    if s.len() > 0 {
        let p = s.drop_last();
        let c = s.last();
        if p.len() == 0 {
            assert(collapse_ws(p) == p);
            assert(seq![c] =~= s);
        } else if !is_ws(p.last()) {
            assert(tidy(p)) by {
                assert(forall|i: int| 0 <= i < p.len() ==> p[i] == s[i]);
            }
            lemma_collapse_fixed(p);
            assert(p.push(c) =~= s);
        } else {
            let q = p.drop_last();
            assert(s[s.len() - 2] == p.last());
            assert(s.len() >= 3) by {
                if s.len() == 2 {
                    assert(s[0] == p.last());
                }
            }
            assert(!is_ws(s[s.len() - 3])) by {
                let i = s.len() - 3;
                let j = s.len() - 2;
                assert(!(is_ws(s[i]) && is_ws(s[j])));
            }
            assert(tidy(q)) by {
                assert(forall|i: int| 0 <= i < q.len() ==> q[i] == s[i]);
                assert(q.last() == s[s.len() - 3]);
            }
            lemma_collapse_fixed(q);
            assert(p.last() == ' ');
            assert(q.push(' ') =~= p);
            assert(collapse_ws(p) == collapse_ws(q));
            assert(q.push(' ').push(c) =~= s);
        }
    }
}

proof fn lemma_drop_forbidden_fixed(s: Seq<char>)
    requires
        forall|i: int| 0 <= i < s.len() ==> !is_forbidden(#[trigger] s[i]),
    ensures
        drop_forbidden(s) == s,
    decreases s.len(),
{
    if s.len() > 0 {
        assert(forall|i: int| 0 <= i < s.drop_last().len() ==> s.drop_last()[i] == s[i]);
        lemma_drop_forbidden_fixed(s.drop_last());
        assert(!is_forbidden(s[s.len() - 1]));
        assert(s.drop_last().push(s.last()) =~= s);
    }
}

proof fn lemma_tidy_fixed(s: Seq<char>)
    requires
        tidy(s),
    ensures
        trim(s) == s,
        drop_forbidden(s) == s,
        collapse_ws(s) == s,
{
    assert(trim_start(s) == s);
    assert(trim_end(s) == s);
    lemma_drop_forbidden_fixed(s);
    lemma_collapse_fixed(s);
}

proof fn lemma_trim_prefix_tidy(s: Seq<char>, k: int)
    requires
        tidy(s),
        0 <= k <= s.len(),
    ensures
        tidy(trim(s.take(k))),
{
    let t = s.take(k);
    assert(forall|i: int| 0 <= i < t.len() ==> t[i] == s[i]);
    if t.len() == 0 {
        assert(trim_start(t) == t);
        assert(trim_end(t) == t);
    } else if !is_ws(t.last()) {
        assert(trim_start(t) == t);
        assert(trim_end(t) == t);
    } else {
        assert(trim_start(t) == t);
        let u = t.drop_last();
        assert(forall|i: int| 0 <= i < u.len() ==> u[i] == s[i]);
        if u.len() > 0 {
            assert(!is_ws(u.last())) by {
                let i = k - 2;
                let j = k - 1;
                assert(!(is_ws(s[i]) && is_ws(s[j])));
            }
        } else {
            assert(t[0] == s[0]);
        }
        assert(trim_end(u) == u);
        assert(trim_end(t) == trim_end(u));
    }
}

proof fn lemma_tidy_dots(a: Seq<char>)
    requires
        tidy(a),
    ensures
        tidy(a + "..."@),
{
    reveal_strlit("...");
    assert(!is_ws('.') && !is_forbidden('.'));
    lemma_tidy_push(a, '.');
    lemma_tidy_push(a.push('.'), '.');
    lemma_tidy_push(a.push('.').push('.'), '.');
    assert(a.push('.').push('.').push('.') =~= a + "..."@);
}

proof fn lemma_fit_whole(s: Seq<char>, n: nat)
    requires
        byte_len(s) <= n,
    ensures
        fit_len(s, n) == s.len(),
    decreases s.len(),
{
    if s.len() > 0 {
        lemma_fit_whole(s.drop_first(), (n - utf8_len(s[0])) as nat);
    }
}

/// Sanitizing a file name again leaves it as it is.
pub proof fn law_sanitize_idempotent(text: Seq<char>, max_bytes: nat)
    ensures
        sanitized(sanitized(text, max_bytes), max_bytes) == sanitized(text, max_bytes),
{
    let collapsed = collapse_ws(drop_forbidden(trim(text)));
    lemma_drop_forbidden_clean(trim(text));
    lemma_collapse_tidy(drop_forbidden(trim(text)));
    reveal_strlit("无标题");
    let untitled = "无标题"@;
    assert(tidy(untitled)) by {
        assert(untitled =~= seq!['无', '标', '题']);
    }
    let source = if collapsed.len() == 0 {
        untitled
    } else {
        collapsed
    };
    assert(tidy(source) && source.len() > 0);
    let out = sanitized(text, max_bytes);
    let end: nat = if max_bytes >= 3 {
        (max_bytes - 3) as nat
    } else {
        0
    };
    if fit_len(source, max_bytes) != source.len() {
        lemma_byte_len_fit(source, end);
        lemma_trim_prefix_tidy(source, fit_len(source, end) as int);
        lemma_tidy_dots(trim(source.take(fit_len(source, end) as int)));
        reveal_strlit("...");
    }
    assert(tidy(out) && out.len() > 0);
    lemma_tidy_fixed(out);
    if fit_len(out, max_bytes) != out.len() {
        if max_bytes >= 3 {
            law_sanitized_fits(text, max_bytes);
            lemma_fit_whole(out, max_bytes);
        } else {
            assert(utf8_len(source[0]) >= 1);
            assert(fit_len(source, 0) == 0);
            assert(source.take(0) =~= Seq::<char>::empty());
            assert(trim(Seq::<char>::empty()) =~= Seq::<char>::empty());
            assert(out =~= "..."@);
            assert(utf8_len(out[0]) >= 1);
            assert(fit_len(out, 0) == 0);
            assert(out.take(0) =~= Seq::<char>::empty());
        }
    }
}

pub(crate) proof fn lemma_ranks_before_order(a: (Seq<char>, u64, u64), b: (Seq<char>, u64, u64), c: (Seq<char>, u64, u64))
    ensures
        !ranks_before(a, a),
        !(ranks_before(a, b) && ranks_before(b, a)),
        a != b ==> ranks_before(a, b) || ranks_before(b, a),
        ranks_before(a, b) && ranks_before(b, c) ==> ranks_before(a, c),
{
    lemma_key_lt_irreflexive(a.0);
    lemma_key_lt_total(a.0, b.0);
    lemma_key_lt_transitive(a.0, b.0, c.0);
}

/// Whether no tally ranks before one listed earlier.
pub open spec fn rank_sorted(s: Seq<DemandTally>) -> bool {
    forall|i: int, j: int| 0 <= i < j < s.len() ==> !ranks_before(#[trigger] rank_key(s[j]), #[trigger] rank_key(s[i]))
}

/// Where [`insert_ranked`] puts `x`.
pub open spec fn ranked_at(s: Seq<DemandTally>, x: DemandTally) -> int
    decreases s.len(),
{
    if s.len() == 0 || ranks_before(rank_key(x), rank_key(s[0])) {
        0
    } else {
        1 + ranked_at(s.drop_first(), x)
    }
}

proof fn lemma_insert_ranked_at(s: Seq<DemandTally>, x: DemandTally)
    ensures
        0 <= ranked_at(s, x) <= s.len(),
        insert_ranked(s, x) == s.insert(ranked_at(s, x), x),
    decreases s.len(),
{
    if s.len() > 0 && !ranks_before(rank_key(x), rank_key(s[0])) {
        lemma_insert_ranked_at(s.drop_first(), x);
        assert(insert_ranked(s, x) =~= s.insert(ranked_at(s, x), x));
    } else {
        assert(insert_ranked(s, x) =~= s.insert(0, x));
    }
}

proof fn lemma_insert_ranked_sorted(s: Seq<DemandTally>, x: DemandTally)
    requires
        rank_sorted(s),
    ensures
        rank_sorted(insert_ranked(s, x)),
    decreases s.len(),
{
    if s.len() == 0 {
        return;
    }
    if ranks_before(rank_key(x), rank_key(s[0])) {
        let r = seq![x] + s;
        assert forall|i: int, j: int| 0 <= i < j < r.len() implies !ranks_before(#[trigger] rank_key(r[j]), #[trigger] rank_key(r[i])) by {
            if i == 0 {
                lemma_ranks_before_order(rank_key(s[j - 1]), rank_key(x), rank_key(s[0]));
                lemma_ranks_before_order(rank_key(x), rank_key(s[0]), rank_key(s[j - 1]));
                if j - 1 > 0 {
                    assert(!ranks_before(rank_key(s[j - 1]), rank_key(s[0])));
                }
            } else {
                assert(r[i] == s[i - 1] && r[j] == s[j - 1]);
            }
        }
    } else {
        let rest = s.drop_first();
        assert(rank_sorted(rest)) by {
            assert forall|i: int, j: int| 0 <= i < j < rest.len() implies !ranks_before(#[trigger] rank_key(rest[j]), #[trigger] rank_key(rest[i])) by {
                assert(rest[i] == s[i + 1] && rest[j] == s[j + 1]);
            }
        }
        lemma_insert_ranked_sorted(rest, x);
        lemma_insert_ranked_at(rest, x);
        let t = insert_ranked(rest, x);
        let p = ranked_at(rest, x);
        let r = seq![s[0]] + t;
        assert forall|i: int, j: int| 0 <= i < j < r.len() implies !ranks_before(#[trigger] rank_key(r[j]), #[trigger] rank_key(r[i])) by {
            if i == 0 {
                let m = j - 1;
                assert(r[j] == t[m]);
                if m < p {
                    assert(t[m] == rest[m] && rest[m] == s[m + 1]);
                } else if m == p {
                    assert(t[m] == x);
                } else {
                    assert(t[m] == rest[m - 1] && rest[m - 1] == s[m]);
                }
            } else {
                assert(r[i] == t[i - 1] && r[j] == t[j - 1]);
            }
        }
        assert(insert_ranked(s, x) == r);
    }
}

pub(crate) proof fn lemma_rank_sort(es: Seq<DemandTally>)
    ensures
        rank_sorted(rank_sort(es)),
        rank_sort(es).to_multiset() == es.to_multiset(),
    decreases es.len(),
{
    broadcast use vstd::seq_lib::group_to_multiset_ensures;

    if es.len() > 0 {
        lemma_rank_sort(es.drop_last());
        let sorted = rank_sort(es.drop_last());
        lemma_insert_ranked_sorted(sorted, es.last());
        lemma_insert_ranked_at(sorted, es.last());
        vstd::seq_lib::to_multiset_insert(sorted, ranked_at(sorted, es.last()), es.last());
        assert(es =~= es.drop_last().push(es.last()));
        vstd::seq_lib::to_multiset_build(es.drop_last(), es.last());
    } else {
        assert(rank_sort(es) =~= es);
    }
}

proof fn lemma_kept_counts(es: Seq<DemandTally>, min_count: u64)
    ensures
        forall|t: DemandTally| kept(es, min_count).contains(t) ==> t.1 >= min_count,
    decreases es.len(),
{
    if es.len() > 0 {
        lemma_kept_counts(es.drop_last(), min_count);
        let k = kept(es.drop_last(), min_count);
        assert forall|t: DemandTally| kept(es, min_count).contains(t) implies t.1 >= min_count by {
            if es.last().1 >= min_count {
                if t != es.last() {
                    let i = choose|i: int| 0 <= i < k.push(es.last()).len() && k.push(es.last())[i] == t;
                    assert(k.contains(t)) by {
                        assert(k[i] == t);
                    }
                }
            }
        }
    }
}

/// A ranked list of words, memes or demands holds at most `top` entries,
/// each seen at least `min_count` times, and no entry ranks before one
/// listed earlier (by score, then count, then text).
pub proof fn law_ranked_lists(es: Seq<DemandTally>, top: nat, min_count: u64)
    ensures
        ranked(es, top, min_count).len() <= top,
        rank_sorted(ranked(es, top, min_count)),
        forall|i: int| 0 <= i < ranked(es, top, min_count).len() ==> #[trigger] ranked(es, top, min_count)[i].1 >= min_count,
{
    broadcast use vstd::seq_lib::group_to_multiset_ensures;

    let k = kept(es, min_count);
    let r = rank_sort(k);
    lemma_rank_sort(k);
    lemma_kept_counts(es, min_count);
    assert forall|i: int| 0 <= i < r.len() implies #[trigger] r[i].1 >= min_count by {
        assert(r.to_multiset().count(r[i]) > 0);
        assert(k.to_multiset().count(r[i]) > 0);
        assert(k.contains(r[i]));
    }
    let out = ranked(es, top, min_count);
    if top < r.len() {
        assert forall|i: int, j: int| 0 <= i < j < out.len() implies !ranks_before(#[trigger] rank_key(out[j]), #[trigger] rank_key(out[i])) by {
            assert(out[i] == r[i] && out[j] == r[j]);
        }
        assert forall|i: int| 0 <= i < out.len() implies #[trigger] out[i].1 >= min_count by {
            assert(out[i] == r[i]);
        }
    }
}

proof fn lemma_goes_before_order(a: (ItemView, u64, u64), b: (ItemView, u64, u64), c: (ItemView, u64, u64), sort: SortMetric)
    ensures
        !(goes_before(a, b, sort) && goes_before(b, a, sort)),
        goes_before(a, b, sort) && goes_before(b, c, sort) ==> goes_before(a, c, sort),
{
    lemma_key_lt_total(a.0.id, b.0.id);
    lemma_key_lt_transitive(a.0.id, b.0.id, c.0.id);
}

/// Whether no work goes before one listed earlier.
pub open spec fn order_kept(s: Seq<(ItemView, u64, u64)>, sort: SortMetric) -> bool {
    forall|i: int, j: int| 0 <= i < j < s.len() ==> !goes_before(#[trigger] s[j], #[trigger] s[i], sort)
}

/// Where [`insert_scored`] puts `x`.
pub open spec fn scored_at(s: Seq<(ItemView, u64, u64)>, x: (ItemView, u64, u64), sort: SortMetric) -> int
    decreases s.len(),
{
    if s.len() == 0 || goes_before(x, s[0], sort) {
        0
    } else {
        1 + scored_at(s.drop_first(), x, sort)
    }
}

proof fn lemma_insert_scored_at(s: Seq<(ItemView, u64, u64)>, x: (ItemView, u64, u64), sort: SortMetric)
    ensures
        0 <= scored_at(s, x, sort) <= s.len(),
        insert_scored(s, x, sort) == s.insert(scored_at(s, x, sort), x),
    decreases s.len(),
{
    if s.len() > 0 && !goes_before(x, s[0], sort) {
        lemma_insert_scored_at(s.drop_first(), x, sort);
        assert(insert_scored(s, x, sort) =~= s.insert(scored_at(s, x, sort), x));
    } else {
        assert(insert_scored(s, x, sort) =~= s.insert(0, x));
    }
}

proof fn lemma_insert_scored_sorted(s: Seq<(ItemView, u64, u64)>, x: (ItemView, u64, u64), sort: SortMetric)
    requires
        order_kept(s, sort),
    ensures
        order_kept(insert_scored(s, x, sort), sort),
    decreases s.len(),
{
    if s.len() == 0 {
        return;
    }
    if goes_before(x, s[0], sort) {
        let r = seq![x] + s;
        assert forall|i: int, j: int| 0 <= i < j < r.len() implies !goes_before(#[trigger] r[j], #[trigger] r[i], sort) by {
            if i == 0 {
                lemma_goes_before_order(s[j - 1], x, s[0], sort);
                if j - 1 > 0 {
                    assert(!goes_before(s[j - 1], s[0], sort));
                }
            } else {
                assert(r[i] == s[i - 1] && r[j] == s[j - 1]);
            }
        }
    } else {
        let rest = s.drop_first();
        assert(order_kept(rest, sort)) by {
            assert forall|i: int, j: int| 0 <= i < j < rest.len() implies !goes_before(#[trigger] rest[j], #[trigger] rest[i], sort) by {
                assert(rest[i] == s[i + 1] && rest[j] == s[j + 1]);
            }
        }
        lemma_insert_scored_sorted(rest, x, sort);
        lemma_insert_scored_at(rest, x, sort);
        let t = insert_scored(rest, x, sort);
        let p = scored_at(rest, x, sort);
        let r = seq![s[0]] + t;
        assert forall|i: int, j: int| 0 <= i < j < r.len() implies !goes_before(#[trigger] r[j], #[trigger] r[i], sort) by {
            if i == 0 {
                let m = j - 1;
                assert(r[j] == t[m]);
                if m < p {
                    assert(t[m] == rest[m] && rest[m] == s[m + 1]);
                } else if m == p {
                    assert(t[m] == x);
                } else {
                    assert(t[m] == rest[m - 1] && rest[m - 1] == s[m]);
                }
            } else {
                assert(r[i] == t[i - 1] && r[j] == t[j - 1]);
            }
        }
        assert(insert_scored(s, x, sort) == r);
    }
}

/// Sorting works by a metric: no work goes before one listed earlier (by
/// the metric, then interactions, then ID), and the works are those given.
pub proof fn law_sort_scored(s: Seq<(ItemView, u64, u64)>, sort: SortMetric)
    ensures
        order_kept(sort_scored(s, sort), sort),
        sort_scored(s, sort).to_multiset() == s.to_multiset(),
    decreases s.len(),
{
    broadcast use vstd::seq_lib::group_to_multiset_ensures;

    if s.len() > 0 {
        law_sort_scored(s.drop_last(), sort);
        let sorted = sort_scored(s.drop_last(), sort);
        lemma_insert_scored_sorted(sorted, s.last(), sort);
        lemma_insert_scored_at(sorted, s.last(), sort);
        vstd::seq_lib::to_multiset_insert(sorted, scored_at(sorted, s.last(), sort), s.last());
        assert(s =~= s.drop_last().push(s.last()));
        vstd::seq_lib::to_multiset_build(s.drop_last(), s.last());
    } else {
        assert(sort_scored(s, sort) =~= s);
    }
}

} // verus!
