//! Verified core of DuneDrop, a desktop front end for the `yt-dlp` downloader:
//! tokenizing raw command-line text, recognising dangerous and sensitive
//! options, parsing the downloader's `--help` catalog, choosing an ffmpeg
//! directory, building download argument lists and tracking the single
//! active download.

pub mod text;
pub mod flags;
pub mod raw_args;
pub mod split;
pub mod catalog;
pub mod tools;
pub mod download;
pub mod jobs;
