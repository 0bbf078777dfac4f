use adm::youtube::{
    common_args, entry_url, fmt_duration, format_args, height_filter, hint_name, is_intermediate,
    missing_tooltip, mode_from_tag, mode_tag, parse_final_name, probe_args, progress_from_fields,
    progress_payload, run_end, run_outcome, run_progress_event, size_for, download_args, FmtLite,
    Mode, VideoMeta, YtRequest,
};
use adm::download::Outcome;
use adm::engine::EngineEvent;
use adm::youtube::{classify_line, LineEvent};

fn req(mode: Mode, height: Option<u32>) -> YtRequest {
    YtRequest { url: "https://youtu.be/x".into(), mode, height }
}

fn f(height: Option<u32>, v: bool, a: bool, size: Option<u64>) -> FmtLite {
    FmtLite { height, has_video: v, has_audio: a, size }
}

#[test]
fn mode_tags_roundtrip() {
    for m in [Mode::Video, Mode::AudioOnly, Mode::VideoOnly, Mode::Playlist] {
        assert_eq!(mode_from_tag(mode_tag(m)), Some(m));
    }
    assert_eq!(mode_tag(Mode::VideoOnly), "video_only");
    assert_eq!(mode_from_tag("other"), None);
}

#[test]
fn format_arguments_per_mode() {
    assert_eq!(height_filter(Some(720)), "[height<=720]");
    assert_eq!(height_filter(None), "");
    assert_eq!(
        format_args(&req(Mode::AudioOnly, Some(720))),
        vec!["-x", "--audio-format", "mp3", "--audio-quality", "0"]
    );
    assert_eq!(
        format_args(&req(Mode::VideoOnly, Some(480))),
        vec!["-f", "bv[height<=480]/bv*[height<=480]"]
    );
    assert_eq!(
        format_args(&req(Mode::Video, None)),
        vec!["-f", "bv*+ba/b", "--merge-output-format", "mp4"]
    );
}

#[test]
fn common_arguments_escape_and_trim_dir() {
    let a = common_args(&req(Mode::Playlist, None), "D:\\100%stuff\\");
    assert_eq!(
        a,
        vec![
            "-f",
            "bv*+ba/b",
            "--merge-output-format",
            "mp4",
            "-o",
            "D:\\100%%stuff\\%(title)s.%(ext)s",
            "--yes-playlist"
        ]
    );
    let b = common_args(&req(Mode::AudioOnly, None), "C:/dl//");
    assert_eq!(b[b.len() - 2], "C:/dl\\%(title)s.%(ext)s");
    assert_eq!(b[b.len() - 1], "--no-playlist");
}

#[test]
fn hint_names() {
    assert_eq!(hint_name(Mode::Playlist), "YouTube playlist");
    assert_eq!(hint_name(Mode::AudioOnly), "YouTube audio");
    assert_eq!(hint_name(Mode::VideoOnly), "YouTube video");
}

#[test]
fn intermediate_streams() {
    assert!(is_intermediate("C:\\dl\\title.f396.mp4"));
    assert!(!is_intermediate("C:\\dl\\title.mp4"));
    assert!(!is_intermediate("C:\\dl\\title.f.mp4"));
    assert!(!is_intermediate("C:\\dl\\a.fx1.mp4"));
}

#[test]
fn final_name_from_log_lines() {
    assert_eq!(
        parse_final_name("[Merger] Merging formats into \"C:\\dl\\a.mp4\""),
        Some("C:\\dl\\a.mp4".to_string())
    );
    assert_eq!(
        parse_final_name("[ExtractAudio] Destination: C:\\dl\\a.mp3"),
        Some("C:\\dl\\a.mp3".to_string())
    );
    assert_eq!(
        parse_final_name("  [download] Destination: C:\\dl\\a.mp4  "),
        Some("C:\\dl\\a.mp4".to_string())
    );
    assert_eq!(parse_final_name("[download] Destination: C:\\dl\\a.f137.mp4"), None);
    assert_eq!(
        parse_final_name("[download] C:\\dl\\b.mp4 has already been downloaded"),
        Some("C:\\dl\\b.mp4".to_string())
    );
    assert_eq!(parse_final_name("[youtube] abc: Downloading webpage"), None);
    assert_eq!(parse_final_name("[Merger] Merging formats into \"\""), None);
}

#[test]
fn size_estimates() {
    let meta = VideoMeta {
        title: "t".into(),
        formats: vec![
            f(None, false, true, Some(100)),
            f(None, false, true, Some(300)),
            f(Some(1080), true, false, Some(5000)),
            f(Some(720), true, false, Some(2000)),
            f(Some(360), true, true, Some(700)),
        ],
    };
    assert_eq!(size_for(&meta, Mode::AudioOnly, None), Some(300));
    assert_eq!(size_for(&meta, Mode::VideoOnly, None), Some(5000));
    assert_eq!(size_for(&meta, Mode::Video, Some(720)), Some(2300));
    assert_eq!(size_for(&meta, Mode::VideoOnly, Some(480)), Some(700));
    assert_eq!(size_for(&meta, Mode::Video, Some(240)), None);
}

#[test]
fn size_estimate_falls_back_to_progressive() {
    let meta = VideoMeta {
        title: "t".into(),
        formats: vec![f(Some(1080), true, false, Some(5000)), f(Some(720), true, true, Some(900))],
    };
    assert_eq!(size_for(&meta, Mode::Video, None), Some(900));
    assert_eq!(size_for(&meta, Mode::AudioOnly, None), None);
}

#[test]
fn durations() {
    assert_eq!(fmt_duration(0), "0:00");
    assert_eq!(fmt_duration(65), "1:05");
    assert_eq!(fmt_duration(3600), "1:00:00");
    assert_eq!(fmt_duration(3725), "1:02:05");
}

#[test]
fn playlist_entry_urls() {
    assert_eq!(entry_url(Some("https://x/y"), Some("id")), Some("https://x/y".to_string()));
    assert_eq!(
        entry_url(Some("watch?v=1"), Some("abc")),
        Some("https://www.youtube.com/watch?v=abc".to_string())
    );
    assert_eq!(entry_url(None, None), None);
}

#[test]
fn tooltips() {
    assert_eq!(missing_tooltip(true, true), "");
    assert_eq!(
        missing_tooltip(false, false),
        "yt-dlp & ffmpeg tidak ditemukan. Pasang di PATH atau atur lokasinya di Options."
    );
    assert!(missing_tooltip(true, false).starts_with("ffmpeg tidak"));
    assert!(missing_tooltip(false, true).starts_with("yt-dlp tidak"));
}

#[test]
fn progress_line_fields() {
    assert_eq!(progress_from_fields(None, Some(5), None, Some(1)), None);
    assert_eq!(progress_from_fields(Some(10), Some(100), Some(90), Some(7)), Some((10, Some(100), 7)));
    assert_eq!(progress_from_fields(Some(10), None, Some(90), None), Some((10, Some(90), 0)));
    assert_eq!(progress_from_fields(Some(10), Some(0), Some(90), None), Some((10, None, 0)));
    assert_eq!(progress_from_fields(Some(10), None, None, None), Some((10, None, 0)));
}

#[test]
fn download_and_probe_arguments() {
    let r = YtRequest { url: "-abc".into(), mode: Mode::AudioOnly, height: None };
    let a = download_args(&r, "C:\\dl", "C:\\ff\\ffmpeg.exe");
    assert_eq!(
        &a[5..],
        &[
            "-o",
            "C:\\dl\\%(title)s.%(ext)s",
            "--no-playlist",
            "--ffmpeg-location",
            "C:\\ff\\ffmpeg.exe",
            "--newline",
            "--no-color",
            "--no-warnings",
            "--progress-template",
            "download:ADMPROG %(progress.downloaded_bytes)s %(progress.total_bytes)s %(progress.total_bytes_estimate)s %(progress.speed)s",
            "--",
            "-abc"
        ]
    );
    let p = probe_args(&r, "C:\\dl");
    assert_eq!(&p[p.len() - 7..], &["--print", "filename", "--no-download", "--no-warnings", "--quiet", "--", "-abc"]);
}

#[test]
fn progress_lines_and_run_results() {
    assert_eq!(progress_payload("ADMPROG 1 2 NA 3"), Some("1 2 NA 3".to_string()));
    assert_eq!(progress_payload("[download] 10%"), None);
    assert_eq!(run_end(false, true, "x".into()), (true, String::new()));
    assert_eq!(run_end(true, false, "x".into()), (false, String::new()));
    assert_eq!(run_end(false, false, String::new()), (false, "yt-dlp gagal (kode error non-nol).".to_string()));
    assert_eq!(run_end(false, false, "ERROR: private".into()), (false, "ERROR: private".to_string()));
    assert_eq!(run_outcome(true, false, 7, Some(9), String::new()), Ok(Outcome::Paused { downloaded: 7, total: None }));
    assert_eq!(run_outcome(false, true, 7, Some(9), String::new()), Ok(Outcome::Completed { bytes: 9 }));
    assert_eq!(run_outcome(false, true, 7, None, String::new()), Ok(Outcome::Completed { bytes: 7 }));
    assert_eq!(run_outcome(false, false, 7, None, "e".into()), Err("e".to_string()));
    match run_progress_event(4, 10, None, 2) {
        EngineEvent::Progress { id, segments, .. } => {
            assert_eq!(id, 4);
            assert_eq!(segments, vec![(0, 10, 10)]);
        }
        other => panic!("unexpected {other:?}"),
    }
}

#[test]
fn output_lines_step() {
    assert_eq!(classify_line("ADMPROG 5 10 NA 2", None), LineEvent::Progress("5 10 NA 2".into()));
    assert_eq!(
        classify_line("[download] Destination: C:\\dl\\a.mp4", None),
        LineEvent::Name("C:\\dl\\a.mp4".into())
    );
    assert_eq!(
        classify_line("[download] Destination: C:\\dl\\a.mp4", Some("C:\\dl\\a.mp4")),
        LineEvent::Nothing
    );
    assert_eq!(
        classify_line("[Merger] Merging formats into \"C:\\dl\\b.mp4\"", Some("C:\\dl\\a.mp4")),
        LineEvent::Name("C:\\dl\\b.mp4".into())
    );
    assert_eq!(classify_line("[youtube] x: Downloading webpage", None), LineEvent::Nothing);
}
