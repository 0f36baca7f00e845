//! The argument list of a download: destination, format preset, ffmpeg
//! location, the user's extra options, and the URLs after `--`.

use vstd::prelude::*;
use crate::catalog::opt_text;
use crate::flags::{
    acknowledgement_message, is_dangerous, is_first_dangerous, strings_view, validate_args,
};
use crate::raw_args::{parse_raw_args, raw_args};
use crate::text::{is_blank, str_equals, trim};
use crate::tools::{detect_ffmpeg, detected_ffmpeg, opt_str, FfmpegProbe};

verus! {

/// A download that the user asked for.
pub struct DownloadRequest {
    pub job_id: String,
    pub urls: Vec<String>,
    /// The folder that the files go to.
    pub destination: String,
    /// `video` (MP4) or `mp3`.
    pub preset: String,
    pub ffmpeg_directory: Option<String>,
    /// Options chosen from the catalog, one argument each.
    pub advanced_args: Vec<String>,
    /// Further options typed as raw text.
    pub raw_args: String,
    /// Whether the user acknowledged dangerous options.
    pub allow_dangerous_options: bool,
}

/// The argument list of `req`, or the error that refuses it, where `ffmpeg`
/// is the ffmpeg directory that was detected.
pub open spec fn download_args(req: DownloadRequest, ffmpeg: Option<Seq<char>>) -> Result<
    Seq<Seq<char>>,
    Seq<char>,
> {
    let preset = req.preset@;
    if req.urls@.len() == 0 {
        Err("At least one URL is required"@)
    } else if trim(req.destination@).len() == 0 {
        Err("A destination folder is required"@)
    } else if preset != "video"@ && preset != "mp3"@ {
        Err("Unknown download preset"@)
    } else if preset == "mp3"@ && ffmpeg is None {
        Err("MP3 downloads require ffmpeg.exe and ffprobe.exe"@)
    } else {
        match raw_args(req.raw_args@) {
            None => Err("Raw arguments contain an unclosed quote"@),
            Some(raw) => {
                let options = download_options(req, raw);
                if !req.allow_dangerous_options && exists|i: int|
                    0 <= i < options.len() && is_dangerous(#[trigger] options[i]) {
                    let i = choose|i: int| is_first_dangerous(options, i);
                    Err(acknowledgement_message(options[i]))
                } else {
                    Ok(options + seq!["--"@] + strings_view(req.urls@))
                }
            },
        }
    }
}

/// The options of a download, in order: destination, format, ffmpeg
/// location where one is configured, catalog options, raw options.
pub open spec fn download_options(req: DownloadRequest, raw: Seq<Seq<char>>) -> Seq<Seq<char>> {
    let format = if req.preset@ == "video"@ {
        "mp4"@
    } else {
        "mp3"@
    };
    let location = match opt_text(req.ffmpeg_directory) {
        Some(d) => if trim(d).len() != 0 {
            seq!["--ffmpeg-location"@, d]
        } else {
            Seq::empty()
        },
        None => Seq::empty(),
    };
    seq!["--paths"@, req.destination@, "-t"@, format] + location + strings_view(req.advanced_args@)
        + raw
}

/// The argument list or error message of a result.
pub open spec fn args_result(r: Result<Vec<String>, String>) -> Result<Seq<Seq<char>>, Seq<char>> {
    match r {
        Ok(v) => Ok(v.deep_view()),
        Err(e) => Err(e@),
    }
}

/// The first dangerous option is unique.
proof fn lemma_first_dangerous_unique(args: Seq<Seq<char>>, i: int, j: int)
    requires
        is_first_dangerous(args, i),
        is_first_dangerous(args, j),
    ensures
        i == j,
{
    if i < j {
        assert(!is_dangerous(args[i]));
    } else if j < i {
        assert(!is_dangerous(args[j]));
    }
}

fn push_all(dst: &mut Vec<String>, src: &Vec<String>)
    ensures
        final(dst).deep_view() == old(dst).deep_view() + src.deep_view(),
{
    let ghost start = dst.deep_view();
    let mut i: usize = 0;
    while i < src.len()
        invariant
            i <= src@.len(),
            dst.deep_view() == start + src.deep_view().take(i as int),
        decreases src@.len() - i,
    {
        let ghost before = dst.deep_view();
        dst.push(src[i].clone());
        assert(dst.deep_view() =~= before.push(src@[i as int]@));
        assert(start + src.deep_view().take(i + 1) =~= before.push(src@[i as int]@));
        i += 1;
    }
    assert(src.deep_view().take(src@.len() as int) == src.deep_view());
}

/// Builds the downloader's arguments for a request, refusing requests that
/// lack URLs or a destination, name an unknown preset, ask for MP3 without
/// ffmpeg, leave a quote open, or hold an unacknowledged dangerous option.
pub fn build_download_args(request: &DownloadRequest, probe: &FfmpegProbe) -> (r: Result<
    Vec<String>,
    String,
>)
    ensures
        args_result(r) == download_args(
            *request,
            detected_ffmpeg(opt_text(request.ffmpeg_directory), *probe),
        ),
{
    proof {
        reveal_strlit("video");
        reveal_strlit("mp3");
        assert("video"@.len() != "mp3"@.len());
    }
    if request.urls.len() == 0 {
        return Err(String::from_str("At least one URL is required"));
    }
    if is_blank(request.destination.as_str()) {
        return Err(String::from_str("A destination folder is required"));
    }
    let mut args: Vec<String> = Vec::new();
    args.push(String::from_str("--paths"));
    args.push(request.destination.clone());
    let video = str_equals(request.preset.as_str(), "video");
    if video {
        args.push(String::from_str("-t"));
        args.push(String::from_str("mp4"));
    } else if str_equals(request.preset.as_str(), "mp3") {
        let directory = match &request.ffmpeg_directory {
            Some(d) => Some(d.as_str()),
            None => None,
        };
        assert(opt_str(directory) == opt_text(request.ffmpeg_directory));
        if detect_ffmpeg(directory, probe).is_none() {
            return Err(String::from_str("MP3 downloads require ffmpeg.exe and ffprobe.exe"));
        }
        args.push(String::from_str("-t"));
        args.push(String::from_str("mp3"));
    } else {
        return Err(String::from_str("Unknown download preset"));
    }
    if let Some(directory) = &request.ffmpeg_directory {
        if !is_blank(directory.as_str()) {
            args.push(String::from_str("--ffmpeg-location"));
            args.push(directory.clone());
        }
    }
    assert(request.preset@ == "video"@ || (request.preset@ == "mp3"@ && detected_ffmpeg(
        opt_text(request.ffmpeg_directory),
        *probe,
    ) is Some));
    push_all(&mut args, &request.advanced_args);
    let raw = match parse_raw_args(request.raw_args.as_str()) {
        Ok(raw) => raw,
        Err(e) => {
            return Err(e);
        },
    };
    push_all(&mut args, &raw);
    let ghost options = args.deep_view();
    assert(options =~= download_options(*request, raw.deep_view()));
    match validate_args(args.as_slice(), request.allow_dangerous_options) {
        Ok(()) => {},
        Err(e) => {
            proof {
                assert(strings_view(args@) =~= options);
                let i = choose|i: int|
                    is_first_dangerous(strings_view(args@), i) && e@ == acknowledgement_message(
                        #[trigger] args@[i]@,
                    );
                let c = choose|i: int| is_first_dangerous(options, i);
                assert(is_dangerous(options[i]));
                lemma_first_dangerous_unique(options, i, c);
            }
            return Err(e);
        },
    }
    let ghost before = args.deep_view();
    args.push(String::from_str("--"));
    assert(args.deep_view() =~= before.push("--"@));
    push_all(&mut args, &request.urls);
    proof {
        assert(strings_view(request.urls@) =~= request.urls.deep_view());
        assert(strings_view(args@) =~= args.deep_view());
        assert forall|i: int| 0 <= i < options.len() implies !is_dangerous(#[trigger] options[i])
            || request.allow_dangerous_options by {
            assert(options[i] == before[i]);
        }
        assert(args.deep_view() =~= options + seq!["--"@] + strings_view(request.urls@));
    }
    Ok(args)
}


/// A built argument list starts with the destination, ends with `--` and
/// the request's URLs, so that no URL is read as an option, and without
/// the acknowledgement holds no dangerous option before the `--`.
pub proof fn law_urls_follow_separator(req: DownloadRequest, ffmpeg: Option<Seq<char>>)
    ensures
        download_args(req, ffmpeg) matches Ok(args) ==> {
            let m = args.len() - req.urls@.len();
            &&& req.urls@.len() > 0
            &&& m >= 3
            &&& args[0] == "--paths"@
            &&& args[1] == req.destination@
            &&& args[m - 1] == "--"@
            &&& args.skip(m) == strings_view(req.urls@)
            &&& !req.allow_dangerous_options ==> forall|i: int|
                0 <= i < m - 1 ==> !is_dangerous(#[trigger] args[i])
        },
{
    if let Ok(args) = download_args(req, ffmpeg) {
        let raw = raw_args(req.raw_args@)->0;
        let options = download_options(req, raw);
        let urls = strings_view(req.urls@);
        assert(args == options + seq!["--"@] + urls);
        let m = args.len() - req.urls@.len();
        assert(m == options.len() + 1);
        assert(args.skip(m) =~= urls);
        assert(args[0] == options[0]);
        assert(args[1] == options[1]);
        if !req.allow_dangerous_options {
            assert forall|i: int| 0 <= i < m - 1 implies !is_dangerous(#[trigger] args[i]) by {
                assert(args[i] == options[i]);
            }
        }
    }
}


/// The layout of a built argument list, whatever the preset: `--paths` and
/// the destination, `-t` and the format (`mp4` for `video`, `mp3` for
/// `mp3`), then `--ffmpeg-location` and the directory exactly when a
/// non-blank ffmpeg directory is configured, then the catalog options, the
/// raw options in their parsed order, `--` and the URLs.
pub proof fn law_download_layout(req: DownloadRequest, ffmpeg: Option<Seq<char>>)
    ensures
        download_args(req, ffmpeg) matches Ok(args) ==> {
            let format = if req.preset@ == "video"@ {
                "mp4"@
            } else {
                "mp3"@
            };
            let location = if req.ffmpeg_directory is Some && trim(
                req.ffmpeg_directory->0@,
            ).len() != 0 {
                seq!["--ffmpeg-location"@, req.ffmpeg_directory->0@]
            } else {
                Seq::empty()
            };
            &&& req.preset@ == "video"@ || req.preset@ == "mp3"@
            &&& raw_args(req.raw_args@) is Some
            &&& args == seq!["--paths"@, req.destination@, "-t"@, format] + location
                + strings_view(req.advanced_args@) + raw_args(req.raw_args@)->0 + seq!["--"@]
                + strings_view(req.urls@)
        },
        download_args(req, ffmpeg) is Ok && req.ffmpeg_directory is Some && trim(
            req.ffmpeg_directory->0@,
        ).len() != 0 ==> download_args(req, ffmpeg)->Ok_0[4] == "--ffmpeg-location"@
            && download_args(req, ffmpeg)->Ok_0[5] == req.ffmpeg_directory->0@,
{
    if let Ok(args) = download_args(req, ffmpeg) {
        let raw = raw_args(req.raw_args@)->0;
        assert(args == download_options(req, raw) + seq!["--"@] + strings_view(req.urls@));
        if let Some(d) = req.ffmpeg_directory {
            if trim(d@).len() != 0 {
                let head = seq!["--paths"@, req.destination@, "-t"@, if req.preset@ == "video"@ {
                    "mp4"@
                } else {
                    "mp3"@
                }] + seq!["--ffmpeg-location"@, d@];
                assert(head[4] == "--ffmpeg-location"@ && head[5] == d@);
                assert(args[4] == head[4] && args[5] == head[5]);
            }
        }
    }
}

} // verus!
