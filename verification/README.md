# dunedrop

The verified core of DuneDrop, a Windows desktop front end for `yt-dlp`.

`src/` is checked by Verus:

- `text` — Unicode white space, trimming, `str`/`String`/`Vec<char>` helpers.
- `split` — `split`, `split_whitespace` and `lines` as specifications, with
  range-returning executable versions.
- `raw_args` — the shell-free tokenizer for raw argument text, with the
  quoting round-trip law.
- `flags` — dangerous and sensitive options; `validate_args`.
- `catalog` — parsing `yt-dlp --help` into sections of options, with the
  well-formedness law of every parsed catalog.
- `tools` — version, catalog and utility output of the downloader; choosing
  the ffmpeg directory from a file-system probe.
- `download` — the argument list of a download request.
- `jobs` — the single active download and the report at its end.

`app/` is the Tauri shell: commands, processes, Windows job objects and the
file-system probes, calling the library for every decision.
