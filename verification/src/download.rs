//! What a crawl saves: file names, directories, the download list and the
//! merge of new results into earlier ones.
use vstd::prelude::*;
use crate::crawler::{
    int_of, sanitize_chars, sanitized, string_field, string_field_exec, value_i64, value_text,
    value_text_exec, CrawlType,
};
use crate::json::{items_view, json_text, key_less, key_lt, same_chars, to_json_string, Json, JsonV};
use crate::text::{append_chars, chars_of, decimal, decimal_chars, signed_decimal, string_of};

verus! {

broadcast use vstd::string::group_string_axioms;

/// Rust's `/` on integers: the quotient rounded toward zero (`b > 0`).
pub open spec fn tdiv(a: int, b: int) -> int {
    if a >= 0 {
        a / b
    } else {
        -((-a) / b)
    }
}

/// Rust's `%` on integers: the remainder with the sign of `a` (`b > 0`).
pub open spec fn trem(a: int, b: int) -> int {
    a - b * tdiv(a, b)
}

/// `format!("{:02}", n)`: at least two characters, zero-padded after the sign.
pub open spec fn pad2(n: int) -> Seq<char> {
    if 0 <= n < 10 {
        seq!['0'] + decimal(n as nat)
    } else {
        signed_decimal(n)
    }
}

/// A duration in milliseconds as `MM-SS`.
pub open spec fn duration_text(ms: int) -> Seq<char> {
    pad2(tdiv(ms, 60000)) + seq!['-'] + pad2(trem(tdiv(ms, 1000), 60))
}

/// The file-name part that one configured field gives.
pub open spec fn field_part(item: JsonV, field: Seq<char>) -> Seq<char> {
    if field == "id"@ {
        string_field(item, "id"@)
    } else if field == "title"@ {
        string_field(item, "desc"@)
    } else if field == "author"@ {
        string_field(item, "author_nickname"@)
    } else if field == "type"@ {
        if (match item.get("type"@) {
            Some(t) => int_of(t),
            None => None,
        }) == Some(68i64) {
            "图文"@
        } else {
            "视频"@
        }
    } else if field == "duration"@ {
        match item.get("duration"@) {
            Some(d) => match int_of(d) {
                Some(ms) => duration_text(ms as int),
                None => Seq::empty(),
            },
            None => Seq::empty(),
        }
    } else if field == "music"@ {
        string_field(item, "music_title"@)
    } else if field == "no"@ {
        match item.get("no"@) {
            Some(v) => value_text(v),
            None => Seq::empty(),
        }
    } else {
        Seq::empty()
    }
}

/// The non-empty parts of the configured fields, in order.
pub open spec fn name_parts(item: JsonV, fields: Seq<Seq<char>>) -> Seq<Seq<char>>
    decreases fields.len(),
{
    if fields.len() == 0 {
        Seq::empty()
    } else {
        let before = name_parts(item, fields.drop_last());
        let part = field_part(item, fields.last());
        if part.len() == 0 {
            before
        } else {
            before.push(part)
        }
    }
}

/// `parts.join(sep)`.
pub open spec fn join(parts: Seq<Seq<char>>, sep: Seq<char>) -> Seq<char>
    decreases parts.len(),
{
    if parts.len() == 0 {
        Seq::empty()
    } else if parts.len() == 1 {
        parts[0]
    } else {
        join(parts.drop_last(), sep) + sep + parts.last()
    }
}

/// The file name of a saved work: its configured fields joined by `sep` (its
/// ID when none gives text), made safe and cut to 200 bytes; an episode of a
/// collection starts with `第<no>集`.
pub open spec fn file_name(item: JsonV, kind: CrawlType, fields: Seq<Seq<char>>, sep: Seq<char>) -> Seq<
    char,
> {
    let joined = join(name_parts(item, fields), sep);
    let base = sanitized(
        if joined.len() == 0 {
            string_field(item, "id"@)
        } else {
            joined
        },
        200,
    );
    if kind == CrawlType::Mix {
        match item.get("no"@) {
            Some(v) => "第"@ + value_text(v) + "集"@ + sep + base,
            None => base,
        }
    } else {
        base
    }
}

fn pad2_exec(negative: bool, m: u64) -> (r: Vec<char>)
    ensures
        r@ == pad2(if negative {
            -(m as int)
        } else {
            m as int
        }),
{
    if negative && m > 0 {
        let mut r = vec!['-'];
        append_chars(&mut r, decimal_chars(m).as_slice());
        assert(r@ =~= seq!['-'] + decimal(m as nat));
        r
    } else if m < 10 {
        let mut r = vec!['0'];
        append_chars(&mut r, decimal_chars(m).as_slice());
        assert(r@ =~= seq!['0'] + decimal(m as nat));
        r
    } else {
        decimal_chars(m)
    }
}

/// Executable form of [`duration_text`].
pub fn duration_chars(ms: i64) -> (r: Vec<char>)
    ensures
        r@ == duration_text(ms as int),
{
    let negative = ms < 0;
    let a: u64 = if !negative {
        ms as u64
    } else if ms == -0x7fff_ffff_ffff_ffff_i64 - 1 {
        0x8000_0000_0000_0000
    } else {
        (-ms) as u64
    };
    assert(a as int == if negative { -(ms as int) } else { ms as int });
    let minutes = a / 60000;
    let seconds = (a / 1000) % 60;
    proof {
        let q = tdiv(ms as int, 1000);
        assert(tdiv(ms as int, 60000) == if negative { -(minutes as int) } else { minutes as int });
        assert(q == if negative { -((a / 1000) as int) } else { (a / 1000) as int });
        assert(tdiv(q, 60) == if negative { -(((a / 1000) / 60) as int) } else { ((a / 1000) / 60) as int });
        assert(trem(q, 60) == if negative { -(seconds as int) } else { seconds as int });
    }
    let mut r = pad2_exec(negative, minutes);
    r.push('-');
    append_chars(&mut r, pad2_exec(negative, seconds).as_slice());
    r
}

fn field_part_exec(item: &Json, field: &str) -> (r: Vec<char>)
    ensures
        r@ == field_part(item.jv(), field@),
{
    let f = chars_of(field);
    if same_chars(f.as_slice(), chars_of("id").as_slice()) {
        string_field_exec(item, "id")
    } else if same_chars(f.as_slice(), chars_of("title").as_slice()) {
        string_field_exec(item, "desc")
    } else if same_chars(f.as_slice(), chars_of("author").as_slice()) {
        string_field_exec(item, "author_nickname")
    } else if same_chars(f.as_slice(), chars_of("type").as_slice()) {
        let t = match item.get("type") {
            Some(t) => value_i64(t),
            None => None,
        };
        if t == Some(68i64) {
            chars_of("图文")
        } else {
            chars_of("视频")
        }
    } else if same_chars(f.as_slice(), chars_of("duration").as_slice()) {
        match item.get("duration") {
            Some(d) => match value_i64(d) {
                Some(ms) => duration_chars(ms),
                None => Vec::new(),
            },
            None => Vec::new(),
        }
    } else if same_chars(f.as_slice(), chars_of("music").as_slice()) {
        string_field_exec(item, "music_title")
    } else if same_chars(f.as_slice(), chars_of("no").as_slice()) {
        match item.get("no") {
            Some(v) => value_text_exec(v),
            None => Vec::new(),
        }
    } else {
        Vec::new()
    }
}

/// The views of a list of strings.
pub open spec fn texts(v: Seq<String>) -> Seq<Seq<char>> {
    Seq::new(v.len(), |i: int| v[i]@)
}

/// The file name of a saved work; see [`file_name`].
pub fn item_filename(item: &Json, kind: CrawlType, fields: &Vec<String>, separator: &str) -> (r: String)
    ensures
        r@ == file_name(item.jv(), kind, texts(fields@), separator@),
{
    let ghost fv = texts(fields@);
    let sep = chars_of(separator);
    let mut joined: Vec<char> = Vec::new();
    let mut count: usize = 0;
    let mut i: usize = 0;
    assert(fv.take(0) =~= Seq::<Seq<char>>::empty());
    while i < fields.len()
        invariant
            i <= fields.len(),
            fv == texts(fields@),
            sep@ == separator@,
            count <= i,
            count == name_parts(item.jv(), fv.take(i as int)).len(),
            joined@ == join(name_parts(item.jv(), fv.take(i as int)), sep@),
        decreases fields.len() - i,
    {
        assert(fv.take(i + 1).drop_last() =~= fv.take(i as int));
        assert(fv.take(i + 1).last() == fields@[i as int]@);
        let part = field_part_exec(item, fields[i].as_str());
        if part.len() > 0 {
            let ghost before = name_parts(item.jv(), fv.take(i as int));
            if count > 0 {
                append_chars(&mut joined, sep.as_slice());
            }
            append_chars(&mut joined, part.as_slice());
            proof {
                let now = before.push(part@);
                assert(now.drop_last() =~= before);
                if before.len() == 0 {
                    assert(joined@ =~= part@);
                }
            }
            count = count + 1;
        }
        i = i + 1;
    }
    assert(fv.take(fields.len() as int) =~= fv);
    let source = if joined.len() == 0 {
        string_field_exec(item, "id")
    } else {
        joined
    };
    let base = sanitize_chars(source.as_slice(), 200);
    if matches!(kind, CrawlType::Mix) {
        match item.get("no") {
            Some(v) => {
                let mut r = chars_of("第");
                append_chars(&mut r, value_text_exec(v).as_slice());
                append_chars(&mut r, chars_of("集").as_slice());
                append_chars(&mut r, sep.as_slice());
                append_chars(&mut r, base.as_slice());
                return string_of(r.as_slice());
            },
            None => {},
        }
    }
    string_of(base.as_slice())
}

/// Where the files of a saved work go, relative to the data directory of the crawl.
#[derive(Clone, Copy, Debug, PartialEq, Eq, Structural)]
pub enum ItemDir {
    /// The data directory itself.
    Stem,
    /// A directory named by the work's file name inside the data directory.
    InStem,
    /// A directory named by the work's file name beside the data directory.
    BesideStem,
}

/// The download address is a list (of images).
pub open spec fn has_image_list(item: JsonV) -> bool {
    match item.get("download_addr"@) {
        Some(JsonV::Arr(_)) => true,
        _ => false,
    }
}

/// Where the files of a work go: image posts get a directory of their own,
/// beside the data directory for a single work, inside it otherwise.
pub open spec fn item_dir(item: JsonV, kind: CrawlType) -> ItemDir {
    if has_image_list(item) {
        if kind == CrawlType::Aweme {
            ItemDir::BesideStem
        } else {
            ItemDir::InStem
        }
    } else {
        ItemDir::Stem
    }
}

/// Executable form of [`item_dir`].
pub fn item_directory(item: &Json, kind: CrawlType) -> (r: ItemDir)
    ensures
        r == item_dir(item.jv(), kind),
{
    let list = match item.get("download_addr") {
        Some(v) => v.as_array().is_some(),
        None => false,
    };
    if list {
        if matches!(kind, CrawlType::Aweme) {
            ItemDir::BesideStem
        } else {
            ItemDir::InStem
        }
    } else {
        ItemDir::Stem
    }
}

/// One file to download: its URL, its directory and its file name.
pub struct DownloadEntry {
    pub url: String,
    pub dir: ItemDir,
    pub out: String,
}

/// The plain value of a download entry.
pub open spec fn entry_view(e: DownloadEntry) -> (Seq<char>, ItemDir, Seq<char>) {
    (e.url@, e.dir, e.out@)
}

/// The plain values of download entries.
pub open spec fn entries_of(v: Seq<DownloadEntry>) -> Seq<(Seq<char>, ItemDir, Seq<char>)> {
    Seq::new(v.len(), |i: int| entry_view(v[i]))
}

/// The string items of a list, in order.
pub open spec fn string_items(items: Seq<JsonV>) -> Seq<Seq<char>>
    decreases items.len(),
{
    if items.len() == 0 {
        Seq::empty()
    } else {
        let before = string_items(items.drop_last());
        match items.last() {
            JsonV::Str(s) => before.push(s),
            _ => before,
        }
    }
}

/// The image entries: `<id>_<n>.jpeg` for the n-th image URL.
pub open spec fn image_entries(urls: Seq<Seq<char>>, dir: ItemDir, id: Seq<char>) -> Seq<
    (Seq<char>, ItemDir, Seq<char>),
> {
    Seq::new(urls.len(), |k: int| (urls[k], dir, id + seq!['_'] + decimal((k + 1) as nat) + ".jpeg"@))
}

/// The files to fetch for a saved work: its images, or its video as
/// `<file name>.mp4` in the data directory (for a download, only a video URL
/// that starts with `http`), then its cover when covers are wanted.
pub open spec fn work_entries(
    item: JsonV,
    kind: CrawlType,
    name: Seq<char>,
    want_cover: bool,
    for_download: bool,
) -> Seq<(Seq<char>, ItemDir, Seq<char>)> {
    let dir = item_dir(item, kind);
    let id = string_field(item, "id"@);
    let media = match item.get("download_addr"@) {
        Some(JsonV::Arr(urls)) => image_entries(string_items(urls), dir, id),
        Some(JsonV::Str(url)) => if !for_download || crate::text::starts_with(url, "http"@) {
            seq![(url, ItemDir::Stem, name + ".mp4"@)]
        } else {
            Seq::empty()
        },
        _ => Seq::empty(),
    };
    let cover = string_field(item, "cover"@);
    if want_cover && cover.len() > 0 {
        media.push((cover, dir, id + "_cover.jpg"@))
    } else {
        media
    }
}

fn numbered_name(id: &[char], n: u64, suffix: &str) -> (r: String)
    ensures
        r@ == id@ + seq!['_'] + decimal(n as nat) + suffix@,
{
    let mut r = crate::text::slice_chars(id, 0, id.len());
    assert(id@.subrange(0, id.len() as int) =~= id@);
    r.push('_');
    append_chars(&mut r, decimal_chars(n).as_slice());
    append_chars(&mut r, chars_of(suffix).as_slice());
    string_of(r.as_slice())
}

/// The files to fetch for a saved work; see [`work_entries`].
pub fn download_entries(
    item: &Json,
    kind: CrawlType,
    name: &str,
    want_cover: bool,
    for_download: bool,
) -> (r: Vec<DownloadEntry>)
    ensures
        entries_of(r@) == work_entries(item.jv(), kind, name@, want_cover, for_download),
{
    let dir = item_directory(item, kind);
    let id = string_field_exec(item, "id");
    let mut out: Vec<DownloadEntry> = Vec::new();
    assert(entries_of(out@) =~= Seq::<(Seq<char>, ItemDir, Seq<char>)>::empty());
    match item.get("download_addr") {
        Some(Json::Arr(urls)) => {
            proof {
                crate::json::lemma_arr_view(*urls);
            }
            let ghost uv = items_view(urls@);
            let mut i: usize = 0;
            let mut n: u64 = 0;
            assert(uv.take(0) =~= Seq::<JsonV>::empty());
            assert(entries_of(out@) =~= image_entries(Seq::empty(), dir, id@));
            while i < urls.len()
                invariant
                    i <= urls.len(),
                    uv == items_view(urls@),
                    dir == item_dir(item.jv(), kind),
                    n as int == string_items(uv.take(i as int)).len(),
                    n <= i,
                    entries_of(out@) == image_entries(string_items(uv.take(i as int)), dir, id@),
                decreases urls.len() - i,
            {
                assert(uv.take(i + 1).drop_last() =~= uv.take(i as int));
                assert(uv.take(i + 1).last() == urls@[i as int].jv());
                match &urls[i] {
                    Json::Str(u) => {
                        let ghost before = out@;
                        let ghost strs = string_items(uv.take(i as int));
                        let file = numbered_name(id.as_slice(), n + 1, ".jpeg");
                        let ghost fv = file@;
                        assert(fv == id@ + seq!['_'] + decimal(((n as int) + 1) as nat) + ".jpeg"@);
                        out.push(DownloadEntry { url: u.clone(), dir, out: file });
                        assert(entries_of(out@) =~= entries_of(before).push((u@, dir, fv)));
                        assert(entries_of(out@) =~= image_entries(strs.push(u@), dir, id@));
                        n = n + 1;
                    },
                    _ => {},
                }
                i = i + 1;
            }
            assert(uv.take(urls.len() as int) =~= uv);
        },
        Some(Json::Str(url)) => {
            let u = chars_of(url.as_str());
            if !for_download || crate::text::occurs_at_exec(u.as_slice(), chars_of("http").as_slice(), 0) {
                let mut file = chars_of(name);
                append_chars(&mut file, chars_of(".mp4").as_slice());
                out.push(DownloadEntry { url: url.clone(), dir: ItemDir::Stem, out: string_of(file.as_slice()) });
                assert(entries_of(out@) =~= seq![(url@, ItemDir::Stem, name@ + ".mp4"@)]);
            }
        },
        _ => {},
    }
    let cover = string_field_exec(item, "cover");
    if want_cover && cover.len() > 0 {
        let ghost before = out@;
        let mut file = id.clone();
        append_chars(&mut file, chars_of("_cover.jpg").as_slice());
        out.push(DownloadEntry { url: string_of(cover.as_slice()), dir, out: string_of(file.as_slice()) });
        assert(entries_of(out@) =~= entries_of(before).push((cover@, dir, id@ + "_cover.jpg"@)));
    }
    out
}

/// The download list of a user crawl: one account URL line per result with
/// a `sec_uid` text.
pub open spec fn user_lines(results: Seq<JsonV>) -> Seq<char>
    decreases results.len(),
{
    if results.len() == 0 {
        Seq::empty()
    } else {
        let before = user_lines(results.drop_last());
        match results.last().get("sec_uid"@) {
            Some(JsonV::Str(uid)) => before + "https://www.douyin.com/user/"@ + uid + seq!['\n'],
            _ => before,
        }
    }
}

/// Executable form of [`user_lines`].
pub fn user_manifest(results: &Vec<Json>) -> (r: String)
    ensures
        r@ == user_lines(items_view(results@)),
{
    let ghost rv = items_view(results@);
    let mut out: Vec<char> = Vec::new();
    let mut i: usize = 0;
    assert(rv.take(0) =~= Seq::<JsonV>::empty());
    while i < results.len()
        invariant
            i <= results.len(),
            rv == items_view(results@),
            out@ == user_lines(rv.take(i as int)),
        decreases results.len() - i,
    {
        assert(rv.take(i + 1).drop_last() =~= rv.take(i as int));
        assert(rv.take(i + 1).last() == results@[i as int].jv());
        match results[i].get("sec_uid") {
            Some(Json::Str(uid)) => {
                let ghost before = out@;
                append_chars(&mut out, chars_of("https://www.douyin.com/user/").as_slice());
                append_chars(&mut out, chars_of(uid.as_str()).as_slice());
                out.push('\n');
                assert(out@ =~= before + "https://www.douyin.com/user/"@ + uid@ + seq!['\n']);
            },
            _ => {},
        }
        i = i + 1;
    }
    assert(rv.take(results.len() as int) =~= rv);
    string_of(out.as_slice())
}

/// The title file of a saved work: `<id>_title.txt` holding its description.
pub fn title_file(item: &Json) -> (r: (String, String))
    ensures
        r.0@ == string_field(item.jv(), "id"@) + "_title.txt"@,
        r.1@ == string_field(item.jv(), "desc"@),
{
    let mut name = string_field_exec(item, "id");
    append_chars(&mut name, chars_of("_title.txt").as_slice());
    (string_of(name.as_slice()), string_of(string_field_exec(item, "desc").as_slice()))
}

/// The JSON text of the `id` of a result.
pub open spec fn id_text_of(v: JsonV) -> Option<Seq<char>> {
    match v.get("id"@) {
        Some(x) => Some(json_text(x)),
        None => None,
    }
}

/// Some earlier result has an `id` with the JSON text `t`.
pub open spec fn has_id_text(olds: Seq<JsonV>, t: Seq<char>) -> bool {
    exists|j: int| 0 <= j < olds.len() && #[trigger] id_text_of(olds[j]) == Some(t)
}

/// A new result is kept unless an earlier one has the same `id` (compared as JSON).
pub open spec fn is_fresh(v: JsonV, olds: Seq<JsonV>) -> bool {
    match v.get("id"@) {
        Some(id) => !has_id_text(olds, json_text(id)),
        None => true,
    }
}

/// The new results that are fresh, in order.
pub open spec fn fresh(results: Seq<JsonV>, olds: Seq<JsonV>) -> Seq<JsonV>
    decreases results.len(),
{
    if results.len() == 0 {
        Seq::empty()
    } else {
        let before = fresh(results.drop_last(), olds);
        if is_fresh(results.last(), olds) {
            before.push(results.last())
        } else {
            before
        }
    }
}

/// The key by which saved works are ordered.
pub open spec fn id_key(v: JsonV) -> Seq<char> {
    string_field(v, "id"@)
}

/// Inserts `x` into a list sorted by descending key, after every element whose
/// key is not smaller (so that equal keys keep their order).
pub open spec fn insert_desc(sorted: Seq<JsonV>, x: JsonV) -> Seq<JsonV>
    decreases sorted.len(),
{
    if sorted.len() == 0 {
        seq![x]
    } else if key_lt(id_key(sorted[0]), id_key(x)) {
        seq![x] + sorted
    } else {
        seq![sorted[0]] + insert_desc(sorted.drop_first(), x)
    }
}

/// The stable sort by descending `id` text.
pub open spec fn sort_desc(s: Seq<JsonV>) -> Seq<JsonV>
    decreases s.len(),
{
    if s.len() == 0 {
        Seq::empty()
    } else {
        insert_desc(sort_desc(s.drop_last()), s.last())
    }
}

fn id_text(v: &Json) -> (r: Option<Vec<char>>)
    ensures
        r matches Some(t) ==> id_text_of(v.jv()) == Some(t@),
        r is None ==> id_text_of(v.jv()) is None,
{
    match v.get("id") {
        Some(x) => Some(chars_of(to_json_string(x).as_str())),
        None => None,
    }
}

/// Some earlier result has an `id` with the JSON text `t`.
fn seen_before(olds: &Vec<Json>, t: &Vec<char>) -> (r: bool)
    ensures
        r == has_id_text(items_view(olds@), t@),
{
    let ghost ov = items_view(olds@);
    let mut k: usize = 0;
    while k < olds.len()
        invariant
            k <= olds.len(),
            ov == items_view(olds@),
            forall|q: int| 0 <= q < k ==> #[trigger] id_text_of(ov[q]) != Some(t@),
        decreases olds.len() - k,
    {
        match id_text(&olds[k]) {
            Some(u) => {
                if same_chars(u.as_slice(), t.as_slice()) {
                    assert(id_text_of(ov[k as int]) == Some(t@));
                    return true;
                }
            },
            None => {},
        }
        k = k + 1;
    }
    false
}

/// Keeps the fresh new results, then appends the earlier results.
pub fn merge_incremental(results: &mut Vec<Json>, olds: Vec<Json>)
    ensures
        items_view(final(results)@) == fresh(items_view(old(results)@), items_view(olds@))
            + items_view(olds@),
{
    let ghost ov = items_view(olds@);
    let ghost rv = items_view(results@);
    let mut kept: Vec<Json> = Vec::new();
    let mut i: usize = 0;
    assert(rv.take(0) =~= Seq::<JsonV>::empty());
    assert(items_view(kept@) =~= Seq::<JsonV>::empty());
    while i < results.len()
        invariant
            i <= results.len(),
            rv == items_view(results@),
            ov == items_view(olds@),
            items_view(kept@) == fresh(rv.take(i as int), ov),
        decreases results.len() - i,
    {
        assert(rv.take(i + 1).drop_last() =~= rv.take(i as int));
        assert(rv.take(i + 1).last() == results@[i as int].jv());
        let keep = match id_text(&results[i]) {
            Some(t) => !seen_before(&olds, &t),
            None => true,
        };
        if keep {
            let ghost before = kept@;
            kept.push(results[i].duplicate());
            assert(items_view(kept@) =~= items_view(before).push(results@[i as int].jv()));
        }
        i = i + 1;
    }
    assert(rv.take(results.len() as int) =~= rv);
    let ghost kv = items_view(kept@);
    let mut k: usize = 0;
    assert(kv + ov.take(0) =~= kv);
    while k < olds.len()
        invariant
            k <= olds.len(),
            ov == items_view(olds@),
            items_view(kept@) == kv + ov.take(k as int),
        decreases olds.len() - k,
    {
        let ghost before = kept@;
        kept.push(olds[k].duplicate());
        assert(items_view(kept@) =~= items_view(before).push(ov[k as int]));
        assert(ov.take(k + 1) =~= ov.take(k as int).push(ov[k as int]));
        k = k + 1;
    }
    assert(ov.take(olds.len() as int) =~= ov);
    *results = kept;
}

/// Sorts saved works by descending `id` text, keeping the order of equal
/// keys; see [`sort_desc`].
pub fn sort_by_id_desc(results: &mut Vec<Json>)
    ensures
        items_view(final(results)@) == sort_desc(items_view(old(results)@)),
{
    let ghost rv = items_view(results@);
    let mut sorted: Vec<Json> = Vec::new();
    let mut i: usize = 0;
    assert(rv.take(0) =~= Seq::<JsonV>::empty());
    while i < results.len()
        invariant
            i <= results.len(),
            rv == items_view(results@),
            items_view(sorted@) == sort_desc(rv.take(i as int)),
        decreases results.len() - i,
    {
        assert(rv.take(i + 1).drop_last() =~= rv.take(i as int));
        assert(rv.take(i + 1).last() == results@[i as int].jv());
        let x = results[i].duplicate();
        let ghost xv = x.jv();
        let key = string_field_exec(&x, "id");
        let ghost sv = items_view(sorted@);
        let mut j: usize = 0;
        let mut stop = false;
        assert(sv.skip(0) =~= sv);
        assert(sv.take(0) + insert_desc(sv.skip(0), xv) =~= insert_desc(sv, xv));
        while j < sorted.len() && !stop
            invariant
                j <= sorted.len(),
                sv == items_view(sorted@),
                key@ == id_key(xv),
                stop ==> j < sorted.len() && key_lt(id_key(sv[j as int]), id_key(xv)),
                insert_desc(sv, xv) == sv.take(j as int) + insert_desc(sv.skip(j as int), xv),
            decreases sorted.len() - j, if stop { 0int } else { 1int },
        {
            let kj = string_field_exec(&sorted[j], "id");
            assert(sv.skip(j as int)[0] == sorted@[j as int].jv());
            if key_less(kj.as_slice(), key.as_slice()) {
                stop = true;
            } else {
                assert(sv.skip(j as int).drop_first() =~= sv.skip(j + 1));
                assert(sv.take(j + 1) =~= sv.take(j as int).push(sv[j as int]));
                j = j + 1;
            }
        }
        proof {
            if j == sorted.len() {
                assert(sv.skip(j as int) =~= Seq::<JsonV>::empty());
            } else {
                assert(sv.skip(j as int)[0] == sv[j as int]);
            }
        }
        sorted.insert(j, x);
        assert(items_view(sorted@) =~= sv.take(j as int) + seq![xv] + sv.skip(j as int));
        assert(items_view(sorted@) =~= sv.take(j as int) + insert_desc(sv.skip(j as int), xv));
        i = i + 1;
    }
    assert(rv.take(results.len() as int) =~= rv);
    *results = sorted;
}

} // verus!
