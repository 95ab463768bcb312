use douyin_cli::subtitles::{
    format_timestamp, model_alias, render_srt, render_txt, render_vtt, resolve_output_path, SubtitleFormat,
    SubtitleSegment,
};

fn segments() -> Vec<SubtitleSegment> {
    vec![SubtitleSegment { start_ms: 1250, end_ms: 3500, text: "你好".to_owned() }]
}

#[test]
fn renders_all_subtitle_formats() {
    assert!(render_srt(&segments()).contains("00:00:01,250 --> 00:00:03,500"));
    assert!(render_vtt(&segments()).starts_with("WEBVTT\n"));
    assert_eq!(render_txt(&segments()), "你好\n");
    assert_eq!(format_timestamp(3661002, '.'), "01:01:01.002");
}

#[test]
fn resolves_single_and_batch_output_paths() {
    assert_eq!(resolve_output_path("voice.mp3", None, SubtitleFormat::Srt, false, false), "voice.srt");
    assert_eq!(resolve_output_path("voice.mp3", Some("out"), SubtitleFormat::Vtt, true, false), "out/voice.vtt");
}

#[test]
fn maps_legacy_default_to_native_model() {
    assert_eq!(model_alias("Systran/faster-whisper-small"), Some("small"));
    assert_eq!(model_alias("turbo"), Some("large-v3-turbo"));
}

#[test]
fn empty_subtitles_render_headers_only() {
    assert_eq!(render_srt(&Vec::new()), "");
    assert_eq!(render_vtt(&Vec::new()), "WEBVTT\n");
    assert_eq!(render_txt(&Vec::new()), "");
    assert_eq!(model_alias("unknown"), None);
    assert_eq!(resolve_output_path("a/voice.mp3", Some("x.srt"), SubtitleFormat::Srt, false, false), "x.srt");
}
