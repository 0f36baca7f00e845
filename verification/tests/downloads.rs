use dunedrop::download::{build_download_args, DownloadRequest};
use dunedrop::jobs::{download_done, DownloadSlot, ExitOutcome};
use dunedrop::tools::{detect_ffmpeg, FfmpegProbe};

fn probe(configured: bool, ffmpeg: Option<&str>, ffprobe: Option<&str>) -> FfmpegProbe {
    FfmpegProbe {
        configured_has_tools: configured,
        ffmpeg_on_path: ffmpeg.map(|s| s.to_string()),
        ffprobe_on_path: ffprobe.map(|s| s.to_string()),
    }
}

fn request(preset: &str) -> DownloadRequest {
    DownloadRequest {
        job_id: "job".into(),
        urls: vec!["https://a.test/1".into(), "https://a.test/2".into()],
        destination: "D:\\Media".into(),
        preset: preset.into(),
        ffmpeg_directory: None,
        advanced_args: vec![],
        raw_args: String::new(),
        allow_dangerous_options: false,
    }
}

#[test]
fn configured_ffmpeg_directory_wins_when_it_holds_both_tools() {
    let p = probe(true, Some("C:\\bin"), Some("C:\\bin"));
    assert_eq!(detect_ffmpeg(Some("E:\\ff"), &p).as_deref(), Some("E:\\ff"));
    let p = probe(false, Some("C:\\bin"), Some("C:\\bin"));
    assert_eq!(detect_ffmpeg(Some("E:\\ff"), &p), None);
}

#[test]
fn blank_configuration_falls_back_to_path() {
    let p = probe(false, Some("C:\\bin"), Some("C:\\bin"));
    assert_eq!(detect_ffmpeg(Some("  "), &p).as_deref(), Some("C:\\bin"));
    assert_eq!(detect_ffmpeg(None, &p).as_deref(), Some("C:\\bin"));
    let split = probe(false, Some("C:\\bin"), Some("C:\\other"));
    assert_eq!(detect_ffmpeg(None, &split), None);
    let missing = probe(true, Some("C:\\bin"), None);
    assert_eq!(detect_ffmpeg(None, &missing), None);
}

#[test]
fn each_refusal_has_its_message() {
    let none = probe(false, None, None);
    let mut r = request("video");
    r.urls.clear();
    assert_eq!(build_download_args(&r, &none).unwrap_err(), "At least one URL is required");
    let mut r = request("video");
    r.destination = " \t".into();
    assert_eq!(build_download_args(&r, &none).unwrap_err(), "A destination folder is required");
    assert_eq!(build_download_args(&request("webm"), &none).unwrap_err(), "Unknown download preset");
    assert_eq!(
        build_download_args(&request("mp3"), &none).unwrap_err(),
        "MP3 downloads require ffmpeg.exe and ffprobe.exe"
    );
    let mut r = request("video");
    r.raw_args = "\"open".into();
    assert_eq!(build_download_args(&r, &none).unwrap_err(), "Raw arguments contain an unclosed quote");
    let mut r = request("video");
    r.raw_args = "--netrc-cmd x".into();
    assert_eq!(
        build_download_args(&r, &none).unwrap_err(),
        "--netrc-cmd requires the Advanced Mode acknowledgement"
    );
}

#[test]
fn acknowledged_dangerous_options_pass() {
    let mut r = request("video");
    r.advanced_args = vec!["--exec".into(), "echo".into()];
    r.allow_dangerous_options = true;
    let args = build_download_args(&r, &probe(false, None, None)).unwrap();
    assert_eq!(
        args,
        vec!["--paths", "D:\\Media", "-t", "mp4", "--exec", "echo", "--", "https://a.test/1", "https://a.test/2"]
    );
}

#[test]
fn mp3_with_configured_ffmpeg_passes_its_location() {
    let mut r = request("mp3");
    r.ffmpeg_directory = Some("E:\\ff".into());
    r.raw_args = "--embed-thumbnail".into();
    let args = build_download_args(&r, &probe(true, None, None)).unwrap();
    assert_eq!(
        args,
        vec![
            "--paths",
            "D:\\Media",
            "-t",
            "mp3",
            "--ffmpeg-location",
            "E:\\ff",
            "--embed-thumbnail",
            "--",
            "https://a.test/1",
            "https://a.test/2"
        ]
    );
}

#[test]
fn mp3_with_ffmpeg_on_path_and_blank_configuration() {
    let mut r = request("mp3");
    r.ffmpeg_directory = Some("   ".into());
    let args = build_download_args(&r, &probe(false, Some("C:\\bin"), Some("C:\\bin"))).unwrap();
    assert_eq!(args, vec!["--paths", "D:\\Media", "-t", "mp3", "--", "https://a.test/1", "https://a.test/2"]);
}

#[test]
fn urls_that_look_like_options_stay_after_the_separator() {
    let mut r = request("video");
    r.urls = vec!["--exec".into()];
    let args = build_download_args(&r, &probe(false, None, None)).unwrap();
    assert_eq!(args, vec!["--paths", "D:\\Media", "-t", "mp4", "--", "--exec"]);
}

#[test]
fn slot_allows_one_download_at_a_time() {
    let mut slot = DownloadSlot::new();
    assert!(slot.ensure_idle().is_ok());
    slot.begin("a".into());
    assert_eq!(slot.ensure_idle().unwrap_err(), "Wait for the active download to finish first");
    assert!(slot.cancel());
    assert!(slot.ensure_idle().is_err());
    assert!(slot.finish("a"));
    assert!(slot.ensure_idle().is_ok());
    assert!(!slot.cancel());
}

#[test]
fn finish_reports_cancellation_only_for_the_cancelled_job() {
    let mut slot = DownloadSlot::new();
    slot.begin("a".into());
    assert!(!slot.finish("a"));
    slot.begin("b".into());
    slot.cancel();
    assert!(!slot.finish("c"));
    assert!(!slot.finish("b"));
}

#[test]
fn done_report_combines_exit_status_and_cancellation() {
    let d = download_done("j".into(), false, ExitOutcome { status: Ok((true, Some(0))) });
    assert!(d.success && !d.cancelled && d.exit_code == Some(0) && d.error.is_none());
    let d = download_done("j".into(), true, ExitOutcome { status: Ok((true, Some(1))) });
    assert!(!d.success && d.cancelled && d.exit_code == Some(1));
    let d = download_done("j".into(), false, ExitOutcome { status: Err("lost".into()) });
    assert!(!d.success && d.exit_code.is_none());
    assert_eq!(d.error.as_deref(), Some("lost"));
    assert_eq!(d.job_id, "j");
}
