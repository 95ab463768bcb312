//! Subtitle decisions: output paths, model names, and the SRT, WebVTT and
//! plain-text renderings of timed segments (times in milliseconds).
use vstd::prelude::*;
use crate::json::str_eq;
use crate::text::{append_chars, chars_of, decimal, decimal_chars, join_str, string_of};

verus! {

broadcast use vstd::string::group_string_axioms;

/// The subtitle file format.
#[derive(Clone, Copy, Debug, PartialEq, Eq, Structural)]
pub enum SubtitleFormat {
    Srt,
    Vtt,
    Txt,
    Json,
}

impl SubtitleFormat {
    /// The file extension of a format.
    pub open spec fn ext(self) -> Seq<char> {
        match self {
            SubtitleFormat::Srt => "srt"@,
            SubtitleFormat::Vtt => "vtt"@,
            SubtitleFormat::Txt => "txt"@,
            SubtitleFormat::Json => "json"@,
        }
    }

    /// The file extension of the format.
    pub fn extension(self) -> (r: &'static str)
        ensures
            r@ == self.ext(),
    {
        match self {
            SubtitleFormat::Srt => "srt",
            SubtitleFormat::Vtt => "vtt",
            SubtitleFormat::Txt => "txt",
            SubtitleFormat::Json => "json",
        }
    }
}

/// The speech recognition back end.
#[derive(Clone, Copy, Debug, PartialEq, Eq, Structural)]
pub enum Backend {
    Auto,
    WhisperCpp,
}

/// The device that runs recognition.
#[derive(Clone, Copy, Debug, PartialEq, Eq, Structural)]
pub enum Device {
    Auto,
    Cpu,
    Cuda,
    Metal,
}

/// The options of the subtitle command.
pub struct SubtitleArgs {
    /// Local audio or video files.
    pub media: Vec<String>,
    /// Output file; the output directory for several files.
    pub output: Option<String>,
    pub output_format: SubtitleFormat,
    /// A whisper.cpp GGML model name or a local `.bin` path.
    pub model: String,
    /// Language code such as `zh` or `en`; detected when absent.
    pub language: Option<String>,
    pub backend: Backend,
    pub device: Device,
    /// Kept for compatibility; the model's quantization decides precision.
    pub compute_type: String,
    pub beam_size: i32,
    /// GGML model cache directory.
    pub model_cache_dir: Option<String>,
    /// Use local models only, never download.
    pub local_files_only: bool,
}

/// Whether a device can be used by this build: CUDA only when built with it,
/// Metal only on macOS.
pub fn validate_device(device: Device, cuda_built: bool, on_macos: bool) -> (r: Result<(), String>)
    ensures
        r is Err <==> ((device == Device::Cuda && !cuda_built) || (device == Device::Metal && !on_macos)),
        device == Device::Cuda && !cuda_built ==> (r matches Err(e) && e@
            == "当前二进制未启用 CUDA；请使用 cargo build --release --features cuda，或改用 --device cpu"@),
        device == Device::Metal && !on_macos ==> (r matches Err(e) && e@ == "Metal 仅支持 macOS；请改用 --device cpu"@),
{
    match device {
        Device::Cuda => if !cuda_built {
            Err("当前二进制未启用 CUDA；请使用 cargo build --release --features cuda，或改用 --device cpu".to_owned())
        } else {
            Ok(())
        },
        Device::Metal => if !on_macos {
            Err("Metal 仅支持 macOS；请改用 --device cpu".to_owned())
        } else {
            Ok(())
        },
        _ => Ok(()),
    }
}

/// The whisper.cpp model a name stands for, older names included.
pub open spec fn alias_of(v: Seq<char>) -> Option<Seq<char>> {
    if v == "tiny"@ {
        Some("tiny"@)
    } else if v == "tiny.en"@ {
        Some("tiny.en"@)
    } else if v == "base"@ {
        Some("base"@)
    } else if v == "base.en"@ {
        Some("base.en"@)
    } else if v == "small"@ || v == "Systran/faster-whisper-small"@ {
        Some("small"@)
    } else if v == "small.en"@ {
        Some("small.en"@)
    } else if v == "medium"@ {
        Some("medium"@)
    } else if v == "medium.en"@ {
        Some("medium.en"@)
    } else if v == "large-v1"@ {
        Some("large-v1"@)
    } else if v == "large-v2"@ {
        Some("large-v2"@)
    } else if v == "large-v3"@ || v == "large"@ {
        Some("large-v3"@)
    } else if v == "large-v3-turbo"@ || v == "turbo"@ {
        Some("large-v3-turbo"@)
    } else {
        None
    }
}

/// The whisper.cpp model a name stands for; see [`alias_of`].
pub fn model_alias(value: &str) -> (r: Option<&'static str>)
    ensures
        match alias_of(value@) {
            Some(m) => r matches Some(x) && x@ == m,
            None => r is None,
        },
{
    if str_eq(value, "tiny") {
        Some("tiny")
    } else if str_eq(value, "tiny.en") {
        Some("tiny.en")
    } else if str_eq(value, "base") {
        Some("base")
    } else if str_eq(value, "base.en") {
        Some("base.en")
    } else if str_eq(value, "small") || str_eq(value, "Systran/faster-whisper-small") {
        Some("small")
    } else if str_eq(value, "small.en") {
        Some("small.en")
    } else if str_eq(value, "medium") {
        Some("medium")
    } else if str_eq(value, "medium.en") {
        Some("medium.en")
    } else if str_eq(value, "large-v1") {
        Some("large-v1")
    } else if str_eq(value, "large-v2") {
        Some("large-v2")
    } else if str_eq(value, "large-v3") || str_eq(value, "large") {
        Some("large-v3")
    } else if str_eq(value, "large-v3-turbo") || str_eq(value, "turbo") {
        Some("large-v3-turbo")
    } else {
        None
    }
}

/// The file name of a model, or why the name is not one.
pub fn model_filename(model: &str) -> (r: Result<String, String>)
    ensures
        match alias_of(model@) {
            Some(m) => r matches Ok(f) && f@ == "ggml-"@ + m + ".bin"@,
            None => r matches Err(e) && e@ == "模型路径不存在，且不是支持的模型别名: "@ + model@,
        },
{
    match model_alias(model) {
        Some(name) => {
            let head = join_str("ggml-", name);
            Ok(join_str(head.as_str(), ".bin"))
        },
        None => Err(join_str("模型路径不存在，且不是支持的模型别名: ", model)),
    }
}

/// Where a model file is downloaded from.
pub fn model_url(filename: &str) -> (r: String)
    ensures
        r@ == "https://huggingface.co/ggerganov/whisper.cpp/resolve/main/"@ + filename@,
{
    join_str("https://huggingface.co/ggerganov/whisper.cpp/resolve/main/", filename)
}

/// `format!("{:02}", n)` for a non-negative number.
pub open spec fn two_digits(n: nat) -> Seq<char> {
    if n < 10 {
        seq!['0'] + decimal(n)
    } else {
        decimal(n)
    }
}

/// `format!("{:03}", n)` for a non-negative number.
pub open spec fn three_digits(n: nat) -> Seq<char> {
    if n < 10 {
        seq!['0', '0'] + decimal(n)
    } else if n < 100 {
        seq!['0'] + decimal(n)
    } else {
        decimal(n)
    }
}

/// A time in milliseconds as `HH:MM:SS<sep>mmm`.
pub open spec fn timestamp(ms: nat, sep: char) -> Seq<char> {
    two_digits(ms / 3600000) + seq![':'] + two_digits((ms / 60000) % 60) + seq![':'] + two_digits(
        (ms / 1000) % 60,
    ) + seq![sep] + three_digits(ms % 1000)
}

fn padded(n: u64, width: u8) -> (r: Vec<char>)
    requires
        width == 2 || width == 3,
    ensures
        width == 2 ==> r@ == two_digits(n as nat),
        width == 3 ==> r@ == three_digits(n as nat),
{
    let mut r: Vec<char> = Vec::new();
    if width == 3 && n < 10 {
        r.push('0');
        r.push('0');
    } else if n < 10 || (width == 3 && n < 100) {
        r.push('0');
    }
    let ghost p = r@;
    append_chars(&mut r, decimal_chars(n).as_slice());
    assert(r@ == p + decimal(n as nat));
    proof {
        if width == 3 && n < 10 {
            assert(p =~= seq!['0', '0']);
        } else if n < 10 || (width == 3 && n < 100) {
            assert(p =~= seq!['0']);
        } else {
            assert(p =~= Seq::<char>::empty());
            assert(r@ =~= decimal(n as nat));
        }
    }
    r
}

/// A time in milliseconds as `HH:MM:SS<sep>mmm`; see [`timestamp`].
pub fn format_timestamp(ms: u64, separator: char) -> (r: String)
    ensures
        r@ == timestamp(ms as nat, separator),
{
    let milliseconds = ms % 1000;
    let total_seconds = ms / 1000;
    let seconds = total_seconds % 60;
    let total_minutes = total_seconds / 60;
    let minutes = total_minutes % 60;
    let hours = total_minutes / 60;
    assert(total_minutes == ms / 60000) by (nonlinear_arith)
        requires
            total_seconds == ms / 1000,
            total_minutes == total_seconds / 60,
    ;
    assert(hours == ms / 3600000) by (nonlinear_arith)
        requires
            total_minutes == ms / 60000,
            hours == total_minutes / 60,
    ;
    let mut out = padded(hours, 2);
    out.push(':');
    append_chars(&mut out, padded(minutes, 2).as_slice());
    out.push(':');
    append_chars(&mut out, padded(seconds, 2).as_slice());
    out.push(separator);
    append_chars(&mut out, padded(milliseconds, 3).as_slice());
    assert(out@ =~= timestamp(ms as nat, separator));
    string_of(out.as_slice())
}

/// One recognized stretch of speech: start and end in milliseconds, and its text.
pub struct SubtitleSegment {
    pub start_ms: u64,
    pub end_ms: u64,
    pub text: String,
}

/// The plain values of segments.
pub open spec fn segs(v: Seq<SubtitleSegment>) -> Seq<(u64, u64, Seq<char>)> {
    Seq::new(v.len(), |i: int| (v[i].start_ms, v[i].end_ms, v[i].text@))
}

/// One SRT block: its number, its times and its text.
pub open spec fn srt_block(n: nat, s: (u64, u64, Seq<char>)) -> Seq<char> {
    decimal(n) + seq!['\n'] + timestamp(s.0 as nat, ',') + " --> "@ + timestamp(s.1 as nat, ',') + seq![
        '\n',
    ] + s.2
}

/// One WebVTT cue: its times and its text.
pub open spec fn vtt_block(s: (u64, u64, Seq<char>)) -> Seq<char> {
    timestamp(s.0 as nat, '.') + " --> "@ + timestamp(s.1 as nat, '.') + seq!['\n'] + s.2
}

/// The blocks of the segments joined by blank lines: SRT blocks (`srt`) or
/// WebVTT cues.
pub open spec fn blocks(v: Seq<(u64, u64, Seq<char>)>, srt: bool) -> Seq<char>
    decreases v.len(),
{
    let b = if srt {
        srt_block(v.len(), v.last())
    } else {
        vtt_block(v.last())
    };
    if v.len() == 0 {
        Seq::empty()
    } else if v.len() == 1 {
        b
    } else {
        blocks(v.drop_last(), srt) + seq!['\n', '\n'] + b
    }
}

/// The texts of the segments, one per line.
pub open spec fn text_lines(v: Seq<(u64, u64, Seq<char>)>) -> Seq<char>
    decreases v.len(),
{
    if v.len() == 0 {
        Seq::empty()
    } else if v.len() == 1 {
        v[0].2
    } else {
        text_lines(v.drop_last()) + seq!['\n'] + v.last().2
    }
}

/// An SRT file of the segments.
pub open spec fn srt_text(v: Seq<(u64, u64, Seq<char>)>) -> Seq<char> {
    if v.len() == 0 {
        Seq::empty()
    } else {
        blocks(v, true) + seq!['\n']
    }
}

/// A WebVTT file of the segments.
pub open spec fn vtt_text(v: Seq<(u64, u64, Seq<char>)>) -> Seq<char> {
    if v.len() == 0 {
        "WEBVTT\n"@
    } else {
        "WEBVTT\n\n"@ + blocks(v, false) + seq!['\n']
    }
}

/// A plain-text file of the segments.
pub open spec fn txt_text(v: Seq<(u64, u64, Seq<char>)>) -> Seq<char> {
    if v.len() == 0 {
        Seq::empty()
    } else {
        text_lines(v) + seq!['\n']
    }
}

fn block_exec(n: u64, seg: &SubtitleSegment, srt: bool) -> (r: Vec<char>)
    ensures
        srt ==> r@ == srt_block(n as nat, (seg.start_ms, seg.end_ms, seg.text@)),
        !srt ==> r@ == vtt_block((seg.start_ms, seg.end_ms, seg.text@)),
{
    let sep = if srt {
        ','
    } else {
        '.'
    };
    let mut out: Vec<char> = Vec::new();
    if srt {
        append_chars(&mut out, decimal_chars(n).as_slice());
        out.push('\n');
    }
    let ghost head = out@;
    append_chars(&mut out, chars_of(format_timestamp(seg.start_ms, sep).as_str()).as_slice());
    append_chars(&mut out, chars_of(" --> ").as_slice());
    append_chars(&mut out, chars_of(format_timestamp(seg.end_ms, sep).as_str()).as_slice());
    out.push('\n');
    append_chars(&mut out, chars_of(seg.text.as_str()).as_slice());
    proof {
        if srt {
            assert(head =~= decimal(n as nat) + seq!['\n']);
            assert(out@ =~= srt_block(n as nat, (seg.start_ms, seg.end_ms, seg.text@)));
        } else {
            assert(head =~= Seq::<char>::empty());
            assert(out@ =~= vtt_block((seg.start_ms, seg.end_ms, seg.text@)));
        }
    }
    out
}

fn blocks_exec(v: &Vec<SubtitleSegment>, srt: bool) -> (r: Vec<char>)
    ensures
        r@ == blocks(segs(v@), srt),
{
    let ghost sv = segs(v@);
    let mut out: Vec<char> = Vec::new();
    let mut i: usize = 0;
    assert(sv.take(0) =~= Seq::<(u64, u64, Seq<char>)>::empty());
    while i < v.len()
        invariant
            i <= v.len(),
            sv == segs(v@),
            out@ == blocks(sv.take(i as int), srt),
        decreases v.len() - i,
    {
        assert(sv.take(i + 1).drop_last() =~= sv.take(i as int));
        assert(sv.take(i + 1).last() == sv[i as int]);
        let ghost before = out@;
        if i > 0 {
            out.push('\n');
            out.push('\n');
        }
        let ghost mid = out@;
        let b = block_exec((i + 1) as u64, &v[i], srt);
        append_chars(&mut out, b.as_slice());
        proof {
            if i == 0 {
                assert(mid =~= Seq::<char>::empty());
                assert(out@ =~= b@);
            } else {
                assert(mid =~= before + seq!['\n', '\n']);
            }
        }
        i = i + 1;
    }
    assert(sv.take(v.len() as int) =~= sv);
    out
}

/// The SRT file of the segments; see [`srt_text`].
pub fn render_srt(segments: &Vec<SubtitleSegment>) -> (r: String)
    ensures
        r@ == srt_text(segs(segments@)),
{
    if segments.len() == 0 {
        return String::new();
    }
    let mut out = blocks_exec(segments, true);
    out.push('\n');
    string_of(out.as_slice())
}

/// The WebVTT file of the segments; see [`vtt_text`].
pub fn render_vtt(segments: &Vec<SubtitleSegment>) -> (r: String)
    ensures
        r@ == vtt_text(segs(segments@)),
{
    if segments.len() == 0 {
        return "WEBVTT\n".to_owned();
    }
    let mut out = chars_of("WEBVTT\n\n");
    append_chars(&mut out, blocks_exec(segments, false).as_slice());
    out.push('\n');
    string_of(out.as_slice())
}

/// The plain-text file of the segments; see [`txt_text`].
pub fn render_txt(segments: &Vec<SubtitleSegment>) -> (r: String)
    ensures
        r@ == txt_text(segs(segments@)),
{
    let ghost sv = segs(segments@);
    if segments.len() == 0 {
        return String::new();
    }
    let mut out: Vec<char> = Vec::new();
    let mut i: usize = 0;
    assert(sv.take(0) =~= Seq::<(u64, u64, Seq<char>)>::empty());
    while i < segments.len()
        invariant
            i <= segments.len(),
            sv == segs(segments@),
            out@ == text_lines(sv.take(i as int)),
        decreases segments.len() - i,
    {
        assert(sv.take(i + 1).drop_last() =~= sv.take(i as int));
        assert(sv.take(i + 1).last() == sv[i as int]);
        let ghost before = out@;
        if i > 0 {
            out.push('\n');
        }
        append_chars(&mut out, chars_of(segments[i].text.as_str()).as_slice());
        proof {
            if i == 0 {
                assert(out@ =~= sv[0].2);
            } else {
                assert(out@ =~= before + seq!['\n'] + sv[i as int].2);
            }
        }
        i = i + 1;
    }
    assert(sv.take(segments.len() as int) =~= sv);
    out.push('\n');
    string_of(out.as_slice())
}

/// The path `path` with its extension set to `ext`.
pub uninterp spec fn path_with_extension(path: Seq<char>, ext: Seq<char>) -> Seq<char>;

/// The file name of `path` without its extension, if it has a file name.
pub uninterp spec fn path_file_stem(path: Seq<char>) -> Option<Seq<char>>;

/// The path `base` with `name` appended.
pub uninterp spec fn path_joined(base: Seq<char>, name: Seq<char>) -> Seq<char>;

/// `Path::with_extension`, the result taken as text; it is the named
/// [`path_with_extension`]. The call panics on an extension that holds a
/// path separator, which is left out.
#[verifier::external_body]
fn with_extension(path: &str, ext: &str) -> (r: String)
    requires
        !ext@.contains('/'),
        !ext@.contains('\\'),
    ensures
        r@ == path_with_extension(path@, ext@),
{
    std::path::Path::new(path).with_extension(ext).to_string_lossy().into_owned()
}

/// `Path::file_stem`, taken as text; it is the named [`path_file_stem`].
#[verifier::external_body]
fn file_stem(path: &str) -> (r: Option<String>)
    ensures
        r matches Some(s) ==> path_file_stem(path@) == Some(s@),
        r is None ==> path_file_stem(path@) is None,
{
    std::path::Path::new(path).file_stem().map(|s| s.to_string_lossy().into_owned())
}

/// `Path::join`, taken as text; it is the named [`path_joined`].
#[verifier::external_body]
pub(crate) fn join_path(base: &str, name: &str) -> (r: String)
    ensures
        r@ == path_joined(base@, name@),
{
    std::path::Path::new(base).join(name).to_string_lossy().into_owned()
}

/// Where a subtitle is written: beside the media with the format's
/// extension; in `output` as `<media stem>.<ext>` when several files are
/// processed or `output` is a directory; else `output` itself.
pub open spec fn output_path(
    media: Seq<char>,
    output: Option<Seq<char>>,
    format: SubtitleFormat,
    multiple: bool,
    output_is_dir: bool,
) -> Seq<char> {
    match output {
        None => path_with_extension(media, format.ext()),
        Some(o) => if multiple || output_is_dir {
            path_joined(
                o,
                (match path_file_stem(media) {
                    Some(s) => s,
                    None => Seq::empty(),
                }) + seq!['.'] + format.ext(),
            )
        } else {
            o
        },
    }
}

/// Where a subtitle is written; see [`output_path`]. The caller tells whether
/// `output` names an existing directory.
pub fn resolve_output_path(
    media: &str,
    output: Option<&str>,
    format: SubtitleFormat,
    multiple: bool,
    output_is_dir: bool,
) -> (r: String)
    ensures
        r@ == output_path(
            media@,
            match output {
                Some(o) => Some(o@),
                None => None,
            },
            format,
            multiple,
            output_is_dir,
        ),
{
    let ext = format.extension();
    proof {
        reveal_strlit("srt");
        reveal_strlit("vtt");
        reveal_strlit("txt");
        reveal_strlit("json");
        assert(!ext@.contains('/') && !ext@.contains('\\'));
    }
    match output {
        None => with_extension(media, ext),
        Some(o) => if multiple || output_is_dir {
            let mut name = match file_stem(media) {
                Some(s) => chars_of(s.as_str()),
                None => Vec::new(),
            };
            let ghost stem = name@;
            name.push('.');
            append_chars(&mut name, chars_of(ext).as_slice());
            assert(name@ =~= stem + seq!['.'] + format.ext());
            join_path(o, string_of(name.as_slice()).as_str())
        } else {
            o.to_owned()
        },
    }
}

} // verus!
