use dunedrop::download::{build_download_args, DownloadRequest};
use dunedrop::flags::{is_sensitive_flag, validate_args};
use dunedrop::catalog::parse_help;
use dunedrop::raw_args::parse_raw_args;
use dunedrop::tools::FfmpegProbe;

fn no_ffmpeg() -> FfmpegProbe {
    FfmpegProbe { configured_has_tools: false, ffmpeg_on_path: None, ffprobe_on_path: None }
}

fn video_request() -> DownloadRequest {
    DownloadRequest {
        job_id: "test".into(),
        urls: vec!["https://example.test/video".into()],
        destination: r"C:\Downloads".into(),
        preset: "video".into(),
        ffmpeg_directory: None,
        advanced_args: vec!["--no-playlist".into()],
        raw_args: r#"--proxy "http://localhost:8080""#.into(),
        allow_dangerous_options: false,
    }
}

#[test]
fn parses_quoted_raw_arguments_without_losing_windows_backslashes() {
    assert_eq!(
        parse_raw_args(r#"--proxy "http://localhost:8080" --ffmpeg-location C:\Tools\ffmpeg"#).unwrap(),
        vec!["--proxy", "http://localhost:8080", "--ffmpeg-location", r"C:\Tools\ffmpeg"]
    );
}

#[test]
fn rejects_unclosed_raw_argument_quote() {
    assert!(parse_raw_args(r#"--proxy "unfinished"#).is_err());
}

#[test]
fn requires_acknowledgement_for_dangerous_options() {
    let args: Vec<String> = vec!["--exec".into(), "echo done".into()];
    assert!(validate_args(&args, false).is_err());
    assert!(validate_args(&args, true).is_ok());
}

#[test]
fn parses_help_sections_and_option_metadata() {
    let sections = parse_help(
        "Options:\n\n  General Options:\n    --version                       Print version\n    --plugin-dirs DIR               Load plugins\n",
    );
    assert_eq!(sections[0].name, "General Options");
    assert_eq!(sections[0].options[0].flags, vec!["--version"]);
    assert_eq!(sections[0].options[1].argument.as_deref(), Some("DIR"));
    assert!(sections[0].options[1].dangerous);
}

#[test]
fn detects_sensitive_flags() {
    assert!(is_sensitive_flag("--password"));
    assert!(!is_sensitive_flag("--proxy"));
}

#[test]
fn builds_download_arguments_in_stable_order() {
    let args = build_download_args(&video_request(), &no_ffmpeg()).unwrap();
    assert_eq!(
        args,
        vec![
            "--paths",
            r"C:\Downloads",
            "-t",
            "mp4",
            "--no-playlist",
            "--proxy",
            "http://localhost:8080",
            "--",
            "https://example.test/video"
        ]
    );
}
