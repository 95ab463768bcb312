//! Browser cookie strings: parsing, format validation and the decisions of the
//! online login probe.
use vstd::prelude::*;
use crate::json::{Json, JsonV};
use crate::text::{
    chars_of, contains, contains_chars, eq_ignore_ascii_case, eq_ignore_case, split_char,
    split_on_char, split_once, split_once_char, string_of, trim, trim_chars,
};

verus! {

/// The key/value pair of one `;`-separated cookie item, when both are non-empty
/// after trimming. The key ends at the first `=`.
pub open spec fn cookie_pair(item: Seq<char>) -> Option<(Seq<char>, Seq<char>)> {
    match split_once(trim(item), '=') {
        Some(kv) => if trim(kv.0).len() > 0 && trim(kv.1).len() > 0 {
            Some((trim(kv.0), trim(kv.1)))
        } else {
            None
        },
        None => None,
    }
}

/// The map built from cookie items, a later item overriding an earlier one with the same key.
pub open spec fn cookie_fold(items: Seq<Seq<char>>) -> Map<Seq<char>, Seq<char>>
    decreases items.len(),
{
    if items.len() == 0 {
        Map::empty()
    } else {
        let m = cookie_fold(items.drop_last());
        match cookie_pair(items.last()) {
            Some(kv) => m.insert(kv.0, kv.1),
            None => m,
        }
    }
}

/// The key/value map of a cookie string.
pub open spec fn cookie_map(cookie: Seq<char>) -> Map<Seq<char>, Seq<char>> {
    cookie_fold(split_char(cookie, ';'))
}

/// A cookie key that identifies a web login (`sessionid` or `ttwid`, in any ASCII case).
pub open spec fn is_login_key(key: Seq<char>) -> bool {
    eq_ignore_case(key, "sessionid"@) || eq_ignore_case(key, "ttwid"@)
}

/// The format check of a cookie: after trimming it is non-empty, holds a `=`,
/// and has a login key.
pub open spec fn cookie_valid(cookie: Seq<char>) -> bool {
    let t = trim(cookie);
    &&& t.len() > 0
    &&& contains(t, seq!['='])
    &&& exists|k: Seq<char>| cookie_map(t).contains_key(k) && is_login_key(k)
}

/// The pairs of `v` are exactly the entries of `m`, each key once.
pub open spec fn pairs_match(v: Seq<(Seq<char>, Seq<char>)>, m: Map<Seq<char>, Seq<char>>) -> bool {
    &&& forall|i: int, j: int| 0 <= i < j < v.len() ==> v[i].0 != v[j].0
    &&& forall|i: int| 0 <= i < v.len() ==> m.contains_key(#[trigger] v[i].0) && m[v[i].0] == v[i].1
    &&& forall|k: Seq<char>| m.contains_key(k) ==> exists|i: int| 0 <= i < v.len() && #[trigger] v[i].0 == k
}

/// The character-level view of a list of pairs.
pub open spec fn pairs_view(v: Seq<(Vec<char>, Vec<char>)>) -> Seq<(Seq<char>, Seq<char>)> {
    Seq::new(v.len(), |i: int| (v[i].0@, v[i].1@))
}

/// The string-level view of a list of pairs.
pub open spec fn string_pairs_view(v: Seq<(String, String)>) -> Seq<(Seq<char>, Seq<char>)> {
    Seq::new(v.len(), |i: int| (v[i].0@, v[i].1@))
}

fn item_pair(item: &[char]) -> (r: Option<(Vec<char>, Vec<char>)>)
    ensures
        r matches Some(p) ==> cookie_pair(item@) == Some((p.0@, p.1@)),
        r is None ==> cookie_pair(item@) is None,
{
    let t = trim_chars(item);
    match split_once_char(t.as_slice(), '=') {
        Some((k, v)) => {
            let k = trim_chars(k.as_slice());
            let v = trim_chars(v.as_slice());
            if k.len() > 0 && v.len() > 0 {
                Some((k, v))
            } else {
                None
            }
        },
        None => None,
    }
}

#[verifier::loop_isolation(false)]
fn set_pair(v: &mut Vec<(Vec<char>, Vec<char>)>, key: Vec<char>, value: Vec<char>, Ghost(m): Ghost<
    Map<Seq<char>, Seq<char>>,
>)
    requires
        pairs_match(pairs_view(old(v)@), m),
    ensures
        pairs_match(pairs_view(final(v)@), m.insert(key@, value@)),
{
    let ghost m2 = m.insert(key@, value@);
    let mut i: usize = 0;
    while i < v.len()
        invariant
            i <= v.len(),
            forall|j: int| 0 <= j < i ==> v@[j].0@ != key@,
            pairs_match(pairs_view(v@), m),
        decreases v.len() - i,
    {
        if crate::json::same_chars(v[i].0.as_slice(), key.as_slice()) {
            let ghost old_v = pairs_view(v@);
            v.set(i, (key, value));
            proof {
                let nv = pairs_view(v@);
                assert(nv =~= old_v.update(i as int, (key@, value@)));
                assert(old_v[i as int].0 == key@);
                assert forall|a: int, b: int| 0 <= a < b < nv.len() implies nv[a].0 != nv[b].0 by {
                    assert(nv[a].0 == old_v[a].0);
                    assert(nv[b].0 == old_v[b].0);
                }
                assert forall|k: Seq<char>| m2.contains_key(k) implies exists|j: int|
                    0 <= j < nv.len() && #[trigger] nv[j].0 == k by {
                    if k == key@ {
                        assert(nv[i as int].0 == k);
                    } else {
                        assert(m.contains_key(k));
                        let j = choose|j: int| 0 <= j < old_v.len() && #[trigger] old_v[j].0 == k;
                        assert(nv[j].0 == k);
                    }
                }
                assert forall|a: int| 0 <= a < nv.len() implies m2.contains_key(#[trigger] nv[a].0)
                    && m2[nv[a].0] == nv[a].1 by {
                    if a != i {
                        assert(nv[a] == old_v[a]);
                        assert(old_v[a].0 != old_v[i as int].0);
                    }
                }
            }
            return;
        }
        i = i + 1;
    }
    let ghost old_v = pairs_view(v@);
    v.push((key, value));
    proof {
        let nv = pairs_view(v@);
        assert(nv =~= old_v.push((key@, value@)));
        assert forall|k: Seq<char>| m2.contains_key(k) implies exists|j: int|
            0 <= j < nv.len() && #[trigger] nv[j].0 == k by {
            if k == key@ {
                assert(nv[old_v.len() as int].0 == k);
            } else {
                assert(m.contains_key(k));
                let j = choose|j: int| 0 <= j < old_v.len() && #[trigger] old_v[j].0 == k;
                assert(nv[j].0 == k);
            }
        }
        assert forall|a: int| 0 <= a < nv.len() implies m2.contains_key(#[trigger] nv[a].0)
            && m2[nv[a].0] == nv[a].1 by {
            if a < old_v.len() {
                assert(nv[a] == old_v[a]);
                assert(v@[a].0@ != key@);
            }
        }
    }
}

fn parse_chars(cookie: &[char]) -> (r: Vec<(Vec<char>, Vec<char>)>)
    ensures
        pairs_match(pairs_view(r@), cookie_map(cookie@)),
{
    let items = split_on_char(cookie, ';');
    let ghost pieces = split_char(cookie@, ';');
    let mut out: Vec<(Vec<char>, Vec<char>)> = Vec::new();
    let mut i: usize = 0;
    assert(pieces.take(0) =~= Seq::<Seq<char>>::empty());
    assert(pairs_view(out@) =~= Seq::<(Seq<char>, Seq<char>)>::empty());
    while i < items.len()
        invariant
            i <= items.len(),
            items@.len() == pieces.len(),
            forall|k: int| 0 <= k < items@.len() ==> #[trigger] items@[k]@ == pieces[k],
            pairs_match(pairs_view(out@), cookie_fold(pieces.take(i as int))),
        decreases items.len() - i,
    {
        let ghost m = cookie_fold(pieces.take(i as int));
        assert(pieces.take(i + 1).drop_last() =~= pieces.take(i as int));
        assert(pieces.take(i + 1).last() == items@[i as int]@);
        match item_pair(items[i].as_slice()) {
            Some((k, v)) => {
                set_pair(&mut out, k, v, Ghost(m));
            },
            None => {},
        }
        i = i + 1;
    }
    assert(pieces.take(items.len() as int) =~= pieces);
    out
}

/// Splits a cookie string into its key/value pairs: items are separated by
/// `;`, the key ends at the first `=`, both are trimmed, items with an empty
/// key or value are dropped, and a later item overrides an earlier one.
pub fn parse(cookie: &str) -> (r: Vec<(String, String)>)
    ensures
        pairs_match(string_pairs_view(r@), cookie_map(cookie@)),
{
    let pairs = parse_chars(chars_of(cookie).as_slice());
    let mut out: Vec<(String, String)> = Vec::new();
    let mut i: usize = 0;
    while i < pairs.len()
        invariant
            i <= pairs.len(),
            out@.len() == i,
            forall|j: int|
                0 <= j < i ==> (#[trigger] out@[j]).0@ == pairs@[j].0@ && out@[j].1@
                    == pairs@[j].1@,
        decreases pairs.len() - i,
    {
        out.push((string_of(pairs[i].0.as_slice()), string_of(pairs[i].1.as_slice())));
        i = i + 1;
    }
    assert(string_pairs_view(out@) =~= pairs_view(pairs@));
    out
}

/// Checks the local format of a cookie: non-empty after trimming, holds a
/// `=`, and has a `sessionid` or `ttwid` key in any ASCII case.
#[verifier::loop_isolation(false)]
pub fn validate(cookie: &str) -> (r: bool)
    ensures
        r == cookie_valid(cookie@),
{
    let t = trim_chars(chars_of(cookie).as_slice());
    let eq = vec!['='];
    assert(eq@ =~= seq!['=']);
    if t.len() == 0 || !contains_chars(t.as_slice(), eq.as_slice()) {
        return false;
    }
    let pairs = parse_chars(t.as_slice());
    let session = chars_of("sessionid");
    let ttwid = chars_of("ttwid");
    let ghost m = cookie_map(t@);
    let mut i: usize = 0;
    while i < pairs.len()
        invariant
            i <= pairs.len(),
            pairs_match(pairs_view(pairs@), m),
            session@ == "sessionid"@,
            ttwid@ == "ttwid"@,
            forall|j: int| 0 <= j < i ==> !is_login_key(#[trigger] pairs_view(pairs@)[j].0),
        decreases pairs.len() - i,
    {
        if eq_ignore_ascii_case(pairs[i].0.as_slice(), session.as_slice())
            || eq_ignore_ascii_case(pairs[i].0.as_slice(), ttwid.as_slice()) {
            let ghost k = pairs_view(pairs@)[i as int].0;
            assert(k == pairs@[i as int].0@);
            assert(m.contains_key(k));
            assert(is_login_key(k));
            assert(cookie_map(trim(cookie@)).contains_key(k) && is_login_key(k));
            return true;
        }
        assert(pairs_view(pairs@)[i as int].0 == pairs@[i as int].0@);
        i = i + 1;
    }
    proof {
        assert forall|k: Seq<char>| m.contains_key(k) implies !is_login_key(k) by {
            let j = choose|j: int|
                0 <= j < pairs_view(pairs@).len() && #[trigger] pairs_view(pairs@)[j].0 == k;
        }
    }
    false
}

/// A JSON document mentions `verify_check` as a key or as a string value,
/// at any depth: the web API asks for a captcha.
pub open spec fn has_verify_check(v: JsonV) -> bool
    decreases v,
{
    match v {
        JsonV::Str(s) => s == "verify_check"@,
        JsonV::Arr(items) => any_verify_check(items),
        JsonV::Obj(es) => any_entry_verify_check(es),
        _ => false,
    }
}

/// Some item of the array mentions `verify_check`.
pub open spec fn any_verify_check(items: Seq<JsonV>) -> bool
    decreases items,
{
    if items.len() == 0 {
        false
    } else {
        has_verify_check(items[0]) || any_verify_check(items.drop_first())
    }
}

/// Some entry of the object is keyed `verify_check` or mentions it in its value.
pub open spec fn any_entry_verify_check(es: Seq<(Seq<char>, JsonV)>) -> bool
    decreases es,
{
    if es.len() == 0 {
        false
    } else {
        es[0].0 == "verify_check"@ || has_verify_check(es[0].1) || any_entry_verify_check(
            es.drop_first(),
        )
    }
}

/// Executable form of [`has_verify_check`].
#[verifier::loop_isolation(false)]
pub fn contains_verify_check(value: &Json) -> (r: bool)
    ensures
        r == has_verify_check(value.jv()),
    decreases value,
{
    match value {
        Json::Str(s) => {
            let c = chars_of(s.as_str());
            let lit = chars_of("verify_check");
            let r = crate::json::same_chars(c.as_slice(), lit.as_slice());
            assert(value.jv() == JsonV::Str(s@));
            assert(has_verify_check(value.jv()) == (s@ == "verify_check"@));
            r
        },
        Json::Arr(items) => {
            let ghost iv = Seq::new(items@.len(), |i: int| items@[i].jv());
            assert(value.jv() == JsonV::Arr(iv)) by {
                if let JsonV::Arr(a) = value.jv() {
                    assert(a =~= iv);
                }
            }
            let mut i: usize = 0;
            assert(iv.skip(0) =~= iv);
            while i < items.len()
                invariant
                    i <= items.len(),
                    iv.len() == items@.len(),
                    forall|j: int| 0 <= j < items@.len() ==> #[trigger] iv[j] == items@[j].jv(),
                    any_verify_check(iv) == any_verify_check(iv.skip(i as int)),
                decreases items.len() - i,
            {
                proof {
                    assert(decreases_to!(items => items@));
                    assert(decreases_to!(items@ => items@[i as int]));
                }
                assert(iv.skip(i as int)[0] == iv[i as int]);
                assert(iv.skip(i as int).drop_first() =~= iv.skip(i + 1));
                if contains_verify_check(&items[i]) {
                    return true;
                }
                i = i + 1;
            }
            false
        },
        Json::Obj(es) => {
            let ghost ev = Seq::new(es@.len(), |i: int| (es@[i].0@, es@[i].1.jv()));
            assert(value.jv() == JsonV::Obj(ev)) by {
                if let JsonV::Obj(a) = value.jv() {
                    assert(a =~= ev);
                }
            }
            let lit = chars_of("verify_check");
            let mut i: usize = 0;
            assert(ev.skip(0) =~= ev);
            while i < es.len()
                invariant
                    i <= es.len(),
                    ev.len() == es@.len(),
                    lit@ == "verify_check"@,
                    forall|j: int| 0 <= j < es@.len() ==> #[trigger] ev[j] == (es@[j].0@, es@[j].1.jv()),
                    any_entry_verify_check(ev) == any_entry_verify_check(ev.skip(i as int)),
                decreases es.len() - i,
            {
                proof {
                    assert(decreases_to!(es => es@));
                    assert(decreases_to!(es@ => es@[i as int]));
                    assert(decreases_to!(es@[i as int] => es@[i as int].1));
                }
                let k = chars_of(es[i].0.as_str());
                let hit = crate::json::same_chars(k.as_slice(), lit.as_slice())
                    || contains_verify_check(&es[i].1);
                assert(ev[i as int] == (es@[i as int].0@, es@[i as int].1.jv()));
                assert(ev.skip(i as int)[0] == ev[i as int]);
                assert(ev.skip(i as int).drop_first() =~= ev.skip(i + 1));
                if hit {
                    return true;
                }
                i = i + 1;
            }
            false
        },
        _ => false,
    }
}

/// What the web search probe says of a login: a reply that asks for a
/// captcha, or whose `status_code` is missing, says nothing (`None`); a
/// failed request or a non-zero `status_code` says no; `status_code` 0 says yes.
pub open spec fn web_verdict(status_ok: bool, body: JsonV) -> Option<bool> {
    if !status_ok {
        Some(false)
    } else if has_verify_check(body) {
        None
    } else {
        match body.get("status_code"@) {
            Some(v) => Some(v.as_i64() == Some(0i64)),
            None => None,
        }
    }
}

/// Decision of the web search probe on its HTTP status and JSON body.
pub fn web_probe_confirms(status_ok: bool, body: &Json) -> (r: Option<bool>)
    ensures
        r == web_verdict(status_ok, body.jv()),
{
    if !status_ok {
        return Some(false);
    }
    if contains_verify_check(body) {
        return None;
    }
    match body.get("status_code") {
        Some(v) => Some(v.as_i64() == Some(0i64)),
        None => None,
    }
}

/// What the SSO probe says of a login: a reply that asks for a captcha, or
/// has no boolean `has_login`, says nothing (`None`); a failed request says
/// no; otherwise `has_login` is the answer.
pub open spec fn sso_verdict(status_ok: bool, body: JsonV) -> Option<bool> {
    if !status_ok {
        Some(false)
    } else if has_verify_check(body) {
        None
    } else {
        match body.get("has_login"@) {
            Some(v) => v.as_bool(),
            None => None,
        }
    }
}

/// Decision of the SSO login probe on its HTTP status and JSON body.
pub fn sso_probe_confirms(status_ok: bool, body: &Json) -> (r: Option<bool>)
    ensures
        r == sso_verdict(status_ok, body.jv()),
{
    if !status_ok {
        return Some(false);
    }
    if contains_verify_check(body) {
        return None;
    }
    match body.get("has_login") {
        Some(v) => v.as_bool(),
        None => None,
    }
}

/// The login state of a cookie from its two probes (`None` for a probe that
/// could not be carried out or said nothing): logged in when either probe
/// says so; otherwise unknown (`None`) when either said nothing; else not
/// logged in.
pub open spec fn login_verdict(web: Option<bool>, sso: Option<bool>) -> Option<bool> {
    if web == Some(true) || sso == Some(true) {
        Some(true)
    } else if web is None || sso is None {
        None
    } else {
        Some(false)
    }
}

/// The login state of a cookie from its two probes; see [`login_verdict`].
pub fn probe(web: Option<bool>, sso: Option<bool>) -> (r: Option<bool>)
    ensures
        r == login_verdict(web, sso),
{
    if web == Some(true) || sso == Some(true) {
        Some(true)
    } else if web.is_none() || sso.is_none() {
        None
    } else {
        Some(false)
    }
}

} // verus!
