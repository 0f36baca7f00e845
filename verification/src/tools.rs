//! Reading the downloader's own output: its version, its option catalog,
//! and where ffmpeg is to be found.

use vstd::prelude::*;
use vstd::utf8::*;
use crate::catalog::{catalog, opt_text, parse_help, CatalogSection};
use crate::text::{is_blank, str_equals, trim, trim_string};

verus! {

/// What `String::from_utf8_lossy` makes of `bytes`: the UTF-8 text, with
/// each invalid sequence replaced by U+FFFD.
pub uninterp spec fn utf8_lossy(bytes: Seq<u8>) -> Seq<char>;

/// `String::from_utf8_lossy`, made owned: trusted to return the named
/// decoding of `bytes`, which for valid UTF-8 is the characters it encodes.
/// What replaces invalid sequences is left to the name.
#[verifier::external_body]
fn decode_lossy(bytes: &[u8]) -> (s: String)
    ensures
        s@ == utf8_lossy(bytes@),
        valid_utf8(bytes@) ==> s@ == decode_utf8(bytes@),
{
    String::from_utf8_lossy(bytes).into_owned()
}

/// The outcome of running the downloader: whether it exited successfully,
/// and what it wrote to standard output and standard error.
pub struct CommandOutput {
    pub success: bool,
    pub stdout: Vec<u8>,
    pub stderr: Vec<u8>,
}

/// The version that `yt-dlp --version` reports, or its trimmed error text
/// when it failed.
pub fn ytdlp_version(output: &CommandOutput) -> (r: Result<String, String>)
    ensures
        match r {
            Ok(v) => output.success && v@ == trim(utf8_lossy(output.stdout@)),
            Err(e) => !output.success && e@ == trim(utf8_lossy(output.stderr@)),
        },
{
    if !output.success {
        let text = decode_lossy(output.stderr.as_slice());
        return Err(trim_string(text.as_str()));
    }
    let text = decode_lossy(output.stdout.as_slice());
    Ok(trim_string(text.as_str()))
}

/// The option catalog from the output of `yt-dlp --help`, or its trimmed
/// error text when it failed.
pub fn ytdlp_catalog(output: &CommandOutput) -> (r: Result<Vec<CatalogSection>, String>)
    ensures
        match r {
            Ok(sections) => output.success && sections.deep_view() == catalog(
                utf8_lossy(output.stdout@),
            ),
            Err(e) => !output.success && e@ == trim(utf8_lossy(output.stderr@)),
        },
{
    if !output.success {
        let text = decode_lossy(output.stderr.as_slice());
        return Err(trim_string(text.as_str()));
    }
    let text = decode_lossy(output.stdout.as_slice());
    Ok(parse_help(text.as_str()))
}

/// The output of a utility run of the downloader, as text.
pub struct UtilityResponse {
    pub stdout: String,
    pub stderr: String,
    pub success: bool,
}

/// The decoded output of a utility run, such as `yt-dlp --update`.
pub fn utility_response(output: &CommandOutput) -> (r: UtilityResponse)
    ensures
        r.stdout@ == utf8_lossy(output.stdout@),
        r.stderr@ == utf8_lossy(output.stderr@),
        r.success == output.success,
{
    UtilityResponse {
        stdout: decode_lossy(output.stdout.as_slice()),
        stderr: decode_lossy(output.stderr.as_slice()),
        success: output.success,
    }
}

/// What the file system says about ffmpeg, gathered by the caller.
pub struct FfmpegProbe {
    /// Whether `ffmpeg.exe` and `ffprobe.exe` are both files in the
    /// configured directory.
    pub configured_has_tools: bool,
    /// The directory of the first `ffmpeg.exe` found along `PATH`.
    pub ffmpeg_on_path: Option<String>,
    /// The directory of the first `ffprobe.exe` found along `PATH`.
    pub ffprobe_on_path: Option<String>,
}

/// The characters of an optional string slice.
pub open spec fn opt_str(o: Option<&str>) -> Option<Seq<char>> {
    match o {
        Some(s) => Some(s@),
        None => None,
    }
}

/// The ffmpeg directory to use: a configured, non-blank directory if it
/// holds both tools (and none otherwise); without one, the directory where
/// both tools are first found along `PATH`, if that is one directory.
pub open spec fn ffmpeg_directory(
    configured: Option<Seq<char>>,
    configured_has_tools: bool,
    ffmpeg_on_path: Option<Seq<char>>,
    ffprobe_on_path: Option<Seq<char>>,
) -> Option<Seq<char>> {
    if configured is Some && trim(configured->0).len() != 0 {
        if configured_has_tools {
            configured
        } else {
            None
        }
    } else {
        match (ffmpeg_on_path, ffprobe_on_path) {
            (Some(a), Some(b)) => if a == b {
                Some(a)
            } else {
                None
            },
            _ => None,
        }
    }
}

/// The ffmpeg directory that a configured directory and a probe give.
pub open spec fn detected_ffmpeg(configured: Option<Seq<char>>, probe: FfmpegProbe) -> Option<
    Seq<char>,
> {
    ffmpeg_directory(
        configured,
        probe.configured_has_tools,
        opt_text(probe.ffmpeg_on_path),
        opt_text(probe.ffprobe_on_path),
    )
}

/// Chooses the ffmpeg directory from the configured one and the probe.
pub fn detect_ffmpeg(configured_directory: Option<&str>, probe: &FfmpegProbe) -> (r: Option<
    String,
>)
    ensures
        opt_text(r) == detected_ffmpeg(opt_str(configured_directory), *probe),
{
    if let Some(directory) = configured_directory {
        if !is_blank(directory) {
            if probe.configured_has_tools {
                return Some(directory.to_owned());
            }
            return None;
        }
    }
    match (&probe.ffmpeg_on_path, &probe.ffprobe_on_path) {
        (Some(a), Some(b)) => {
            if str_equals(a.as_str(), b.as_str()) {
                Some(a.clone())
            } else {
                None
            }
        },
        _ => None,
    }
}

} // verus!
