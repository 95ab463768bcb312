//! The settings file: where it lives, its defaults, and how a stored file is
//! laid over the defaults.
use vstd::prelude::*;
use crate::json::{entries_view, insert_str, items_view, lemma_arr_view, lemma_obj_view, lookup, set_entry, Json, JsonV};
use crate::subtitles::{join_path, path_joined};
use crate::text::chars_of;

verus! {

broadcast use vstd::string::group_string_axioms;

/// A non-empty environment value.
pub open spec fn given(v: Option<Seq<char>>) -> Option<Seq<char>> {
    match v {
        Some(s) => if s.len() > 0 {
            Some(s)
        } else {
            None
        },
        None => None,
    }
}

/// The home directory: `$HOME` (`%USERPROFILE%` on Windows), else `.`.
pub open spec fn home_of(home: Option<Seq<char>>) -> Seq<char> {
    match home {
        Some(h) => h,
        None => "."@,
    }
}

/// The configuration directory: `$DOUYIN_HOME`; on Windows `%APPDATA%\douyin-cli`;
/// `$XDG_CONFIG_HOME/douyin-cli`; else `~/.config/douyin-cli`.
pub open spec fn config_dir(
    douyin_home: Option<Seq<char>>,
    appdata: Option<Seq<char>>,
    xdg: Option<Seq<char>>,
    home: Option<Seq<char>>,
    windows: bool,
) -> Seq<char> {
    match given(douyin_home) {
        Some(d) => d,
        None => if windows && given(appdata) is Some {
            path_joined(given(appdata).unwrap(), "douyin-cli"@)
        } else {
            match given(xdg) {
                Some(x) => path_joined(x, "douyin-cli"@),
                None => path_joined(path_joined(home_of(home), ".config"@), "douyin-cli"@),
            }
        },
    }
}

/// The plain value of an optional text.
pub open spec fn opt(v: Option<&str>) -> Option<Seq<char>> {
    match v {
        Some(s) => Some(s@),
        None => None,
    }
}

fn nonempty_str(v: Option<&str>) -> (r: Option<&str>)
    ensures
        opt(r) == given(opt(v)),
{
    match v {
        Some(s) => if s.is_empty() {
            None
        } else {
            Some(s)
        },
        None => None,
    }
}

/// The configuration directory from the environment values the caller
/// read; see [`config_dir`].
pub fn config_root(
    douyin_home: Option<&str>,
    appdata: Option<&str>,
    xdg: Option<&str>,
    home: Option<&str>,
    windows: bool,
) -> (r: String)
    ensures
        r@ == config_dir(opt(douyin_home), opt(appdata), opt(xdg), opt(home), windows),
{
    match nonempty_str(douyin_home) {
        Some(d) => return d.to_owned(),
        None => {},
    }
    if windows {
        match nonempty_str(appdata) {
            Some(a) => return join_path(a, "douyin-cli"),
            None => {},
        }
    }
    match nonempty_str(xdg) {
        Some(x) => join_path(x, "douyin-cli"),
        None => {
            let h = match home {
                Some(h) => h,
                None => ".",
            };
            let c = join_path(h, ".config");
            join_path(c.as_str(), "douyin-cli")
        },
    }
}

/// The settings file in a configuration directory.
pub fn settings_file(config_root: &str) -> (r: String)
    ensures
        r@ == path_joined(path_joined(config_root@, "config"@), "settings.json"@),
{
    let c = join_path(config_root, "config");
    join_path(c.as_str(), "settings.json")
}

/// A stored value laid over a default: objects key by key (recursively),
/// anything else replaced.
pub open spec fn merged(base: JsonV, overlay: JsonV) -> JsonV
    decreases overlay,
{
    match (base, overlay) {
        (JsonV::Obj(b), JsonV::Obj(o)) => JsonV::Obj(merge_entries(b, o)),
        _ => overlay,
    }
}

/// The entries of `overlay` laid over `base` one by one.
pub open spec fn merge_entries(base: Seq<(Seq<char>, JsonV)>, overlay: Seq<(Seq<char>, JsonV)>) -> Seq<
    (Seq<char>, JsonV),
>
    decreases overlay,
{
    if overlay.len() == 0 {
        base
    } else {
        let k = overlay[0].0;
        let next = match lookup(base, k) {
            Some(e) => set_entry(base, k, merged(e, overlay[0].1)),
            None => set_entry(base, k, overlay[0].1),
        };
        merge_entries(next, overlay.drop_first())
    }
}

/// A stored value laid over a default; see [`merged`].
#[verifier::loop_isolation(false)]
#[verifier::spinoff_prover]
#[verifier::rlimit(30)]
pub fn merged_value(base: Json, overlay: &Json) -> (r: Json)
    ensures
        r.jv() == merged(base.jv(), overlay.jv()),
    decreases overlay,
{
    match (base, overlay) {
        (Json::Obj(b), Json::Obj(o)) => {
            proof {
                lemma_obj_view(b);
                lemma_obj_view(*o);
            }
            let ghost ov = entries_view(o@);
            let ghost bv = entries_view(b@);
            let mut es = b;
            let mut i: usize = 0;
            assert(ov.skip(0) =~= ov);
            while i < o.len()
                invariant
                    i <= o.len(),
                    ov == entries_view(o@),
                    merge_entries(bv, ov) == merge_entries(entries_view(es@), ov.skip(i as int)),
                decreases o.len() - i,
            {
                proof {
                    assert(decreases_to!(o => o@));
                    assert(decreases_to!(o@ => o@[i as int]));
                    assert(decreases_to!(o@[i as int] => o@[i as int].1));
                }
                assert(ov.skip(i as int)[0] == (o@[i as int].0@, o@[i as int].1.jv()));
                assert(ov.skip(i as int).drop_first() =~= ov.skip(i + 1));
                let key = crate::text::chars_of(o[i].0.as_str());
                let value = match crate::json::lookup_entry(&es, key.as_slice()) {
                    Some(e) => merged_value(e.duplicate(), &o[i].1),
                    None => o[i].1.duplicate(),
                };
                crate::json::insert_entry(&mut es, key.as_slice(), value);
                i = i + 1;
            }
            assert(ov.skip(o.len() as int) =~= Seq::<(Seq<char>, JsonV)>::empty());
            proof {
                lemma_obj_view(es);
            }
            Json::Obj(es)
        },
        (_, o) => o.duplicate(),
    }
}

/// Lays a stored value over a default in place; see [`merged`].
pub fn merge(base: &mut Json, overlay: Json)
    ensures
        final(base).jv() == merged(old(base).jv(), overlay.jv()),
{
    let b = base.duplicate();
    *base = merged_value(b, &overlay);
}

/// The `openapi` section of the settings, empty when it is no object.
pub open spec fn openapi_section(settings: JsonV) -> Seq<(Seq<char>, JsonV)> {
    match settings.get("openapi"@) {
        Some(JsonV::Obj(es)) => es,
        _ => Seq::empty(),
    }
}

/// The `openapi` section of the settings; see [`openapi_section`].
pub fn openapi(settings: &Json) -> (r: Vec<(String, Json)>)
    ensures
        entries_view(r@) == openapi_section(settings.jv()),
{
    match settings.get("openapi") {
        Some(Json::Obj(es)) => {
            proof {
                lemma_obj_view(*es);
            }
            let mut out: Vec<(String, Json)> = Vec::new();
            let mut i: usize = 0;
            while i < es.len()
                invariant
                    i <= es.len(),
                    entries_view(out@) == entries_view(es@).take(i as int),
                decreases es.len() - i,
            {
                let ghost b = entries_view(out@);
                out.push((es[i].0.clone(), es[i].1.duplicate()));
                assert(entries_view(out@) =~= b.push(entries_view(es@)[i as int]));
                assert(entries_view(es@).take(i + 1) =~= entries_view(es@).take(i as int).push(entries_view(es@)[i as int]));
                i = i + 1;
            }
            assert(entries_view(es@).take(es.len() as int) =~= entries_view(es@));
            out
        },
        _ => {
            let out: Vec<(String, Json)> = Vec::new();
            assert(entries_view(out@) =~= Seq::<(Seq<char>, JsonV)>::empty());
            out
        },
    }
}

/// The default settings, downloads under `<home>/Downloads/douyin`.
pub open spec fn default_settings(home: Seq<char>) -> JsonV {
    let api = set_entry(set_entry(set_entry(set_entry(set_entry(set_entry(set_entry(set_entry(
        Seq::empty(),
        "clientKey"@,
        JsonV::Str(Seq::empty()),
    ), "clientSecret"@, JsonV::Str(Seq::empty())), "redirectUri"@, JsonV::Str(Seq::empty())),
        "scopes"@, JsonV::Arr(Seq::empty())), "accessToken"@, JsonV::Str(Seq::empty())),
        "refreshToken"@, JsonV::Str(Seq::empty())), "openId"@, JsonV::Str(Seq::empty())),
        "expiresIn"@, JsonV::UInt(0));
    let e0 = set_entry(Seq::empty(), "cookie"@, JsonV::Str(Seq::empty()));
    let e1 = set_entry(e0, "openapi"@, JsonV::Obj(api));
    let e2 = set_entry(e1, "userAgent"@, JsonV::Str(Seq::empty()));
    let e3 = set_entry(
        e2,
        "downloadPath"@,
        JsonV::Str(path_joined(path_joined(home, "Downloads"@), "douyin"@)),
    );
    let e4 = set_entry(e3, "enableIncrementalFetch"@, JsonV::Bool(true));
    let e5 = set_entry(e4, "enableDownloadTitle"@, JsonV::Bool(false));
    let e6 = set_entry(e5, "enableDownloadCover"@, JsonV::Bool(false));
    let e7 = set_entry(
        e6,
        "filenameFields"@,
        JsonV::Arr(seq![JsonV::Str("id"@), JsonV::Str("title"@)]),
    );
    JsonV::Obj(set_entry(e7, "filenameSeparator"@, JsonV::Str("_"@)))
}

/// The default settings for a home directory; see [`default_settings`].
pub fn defaults(home: &str) -> (r: Json)
    ensures
        r.jv() == default_settings(home@),
{
    let mut api: Vec<(String, Json)> = Vec::new();
    assert(entries_view(api@) =~= Seq::<(Seq<char>, JsonV)>::empty());
    insert_str(&mut api, "clientKey", Json::Str(String::new()));
    insert_str(&mut api, "clientSecret", Json::Str(String::new()));
    insert_str(&mut api, "redirectUri", Json::Str(String::new()));
    let none: Vec<Json> = Vec::new();
    proof {
        lemma_arr_view(none);
    }
    assert(items_view(none@) =~= Seq::<JsonV>::empty());
    insert_str(&mut api, "scopes", Json::Arr(none));
    insert_str(&mut api, "accessToken", Json::Str(String::new()));
    insert_str(&mut api, "refreshToken", Json::Str(String::new()));
    insert_str(&mut api, "openId", Json::Str(String::new()));
    insert_str(&mut api, "expiresIn", Json::UInt(0));
    proof {
        lemma_obj_view(api);
    }
    let mut es: Vec<(String, Json)> = Vec::new();
    assert(entries_view(es@) =~= Seq::<(Seq<char>, JsonV)>::empty());
    insert_str(&mut es, "cookie", Json::Str(String::new()));
    insert_str(&mut es, "openapi", Json::Obj(api));
    insert_str(&mut es, "userAgent", Json::Str(String::new()));
    let downloads = join_path(home, "Downloads");
    insert_str(&mut es, "downloadPath", Json::Str(join_path(downloads.as_str(), "douyin")));
    insert_str(&mut es, "enableIncrementalFetch", Json::Bool(true));
    insert_str(&mut es, "enableDownloadTitle", Json::Bool(false));
    insert_str(&mut es, "enableDownloadCover", Json::Bool(false));
    let fields = vec![Json::Str("id".to_owned()), Json::Str("title".to_owned())];
    proof {
        lemma_arr_view(fields);
    }
    assert(items_view(fields@) =~= seq![JsonV::Str("id"@), JsonV::Str("title"@)]);
    insert_str(&mut es, "filenameFields", Json::Arr(fields));
    insert_str(&mut es, "filenameSeparator", Json::Str("_".to_owned()));
    proof {
        lemma_obj_view(es);
    }
    Json::Obj(es)
}

/// A saved text setting: the string under `key`, when it is one and not empty.
pub open spec fn saved_text(values: Seq<(Seq<char>, JsonV)>, key: Seq<char>) -> Option<Seq<char>> {
    match lookup(values, key) {
        Some(JsonV::Str(s)) => if s.len() > 0 {
            Some(s)
        } else {
            None
        },
        _ => None,
    }
}

/// A saved text setting; see [`saved_text`].
pub fn saved_string(values: &Vec<(String, Json)>, key: &str) -> (r: Option<String>)
    ensures
        crate::target::opt_str_view(r) == saved_text(entries_view(values@), key@),
{
    let k = chars_of(key);
    match crate::json::lookup_entry(values, k.as_slice()) {
        Some(Json::Str(s)) => if s.as_str().is_empty() {
            None
        } else {
            Some(s.clone())
        },
        _ => None,
    }
}

} // verus!
