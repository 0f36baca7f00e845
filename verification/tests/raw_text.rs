use dunedrop::flags::{is_dangerous_flag, is_sensitive_flag, validate_args};
use dunedrop::raw_args::parse_raw_args;
use dunedrop::text::{is_blank, is_whitespace, trim_string};

#[test]
fn quoted_arguments_round_trip() {
    // Each argument in double quotes, with backslashes and double quotes escaped.
    let text = r#""a b" "c\"d" "e\\f" "it's" "#;
    assert_eq!(parse_raw_args(text).unwrap(), vec!["a b", "c\"d", r"e\f", "it's"]);
}

#[test]
fn empty_quotes_and_blank_runs_yield_no_argument() {
    assert_eq!(parse_raw_args("  \"\"   ''  \t ").unwrap(), Vec::<String>::new());
    assert_eq!(parse_raw_args("").unwrap(), Vec::<String>::new());
}

#[test]
fn single_quotes_group_and_keep_double_quotes() {
    assert_eq!(parse_raw_args(r#"'a "b' c"#).unwrap(), vec![r#"a "b"#, "c"]);
}

#[test]
fn backslash_escapes_only_backslash_and_quotes() {
    assert_eq!(parse_raw_args(r"a\\b c\'d e\x").unwrap(), vec![r"a\b", "c'd", r"e\x"]);
    assert_eq!(parse_raw_args(r#"\"quoted\""#).unwrap(), vec![r#""quoted""#]);
}

#[test]
fn quotes_join_adjacent_text() {
    assert_eq!(parse_raw_args(r#"--name="my file".mp4"#).unwrap(), vec!["--name=my file.mp4"]);
}

#[test]
fn unicode_white_space_separates_arguments() {
    assert_eq!(parse_raw_args("a\u{3000}b\u{a0}c\nd").unwrap(), vec!["a", "b", "c", "d"]);
}

#[test]
fn unclosed_single_quote_error_message() {
    assert_eq!(parse_raw_args("x 'y").unwrap_err(), "Raw arguments contain an unclosed quote");
}

#[test]
fn validation_names_the_first_dangerous_option() {
    let args: Vec<String> = vec!["--proxy".into(), "--alias".into(), "--exec".into()];
    assert_eq!(
        validate_args(&args, false).unwrap_err(),
        "--alias requires the Advanced Mode acknowledgement"
    );
    let safe: Vec<String> = vec!["--proxy".into(), "x".into()];
    assert!(validate_args(&safe, false).is_ok());
    assert!(validate_args(&[], false).is_ok());
}

#[test]
fn every_dangerous_flag_is_recognised() {
    for flag in [
        "--exec",
        "--plugin-dirs",
        "--external-downloader",
        "--external-downloader-args",
        "--enable-file-urls",
        "--netrc-cmd",
        "--alias",
        "--use-postprocessor",
    ] {
        assert!(is_dangerous_flag(flag), "{flag}");
        assert!(!is_sensitive_flag(flag), "{flag}");
    }
    assert!(!is_dangerous_flag("--exec-before-download"));
    assert!(!is_dangerous_flag("--EXEC"));
    assert!(!is_dangerous_flag(""));
}

#[test]
fn every_sensitive_flag_is_recognised() {
    for flag in [
        "--password",
        "--twofactor",
        "--video-password",
        "--ap-password",
        "--client-certificate-password",
        "--username",
        "--ap-username",
    ] {
        assert!(is_sensitive_flag(flag), "{flag}");
        assert!(!is_dangerous_flag(flag), "{flag}");
    }
    assert!(!is_sensitive_flag("--passwor"));
}

#[test]
fn white_space_classification() {
    for c in ['\t', '\n', '\u{b}', '\u{c}', '\r', ' ', '\u{85}', '\u{a0}', '\u{1680}', '\u{2000}', '\u{200a}', '\u{2028}', '\u{2029}', '\u{202f}', '\u{205f}', '\u{3000}'] {
        assert!(is_whitespace(c), "{:?}", c);
        assert_eq!(is_whitespace(c), c.is_whitespace());
    }
    for c in ['a', '-', '\u{200b}', '\u{1f}', '\u{feff}'] {
        assert!(!is_whitespace(c), "{:?}", c);
        assert_eq!(is_whitespace(c), c.is_whitespace());
    }
}

#[test]
fn trimming_and_blankness() {
    assert_eq!(trim_string("  \u{3000}abc d\t\r\n"), "abc d");
    assert_eq!(trim_string("   "), "");
    assert!(is_blank(" \t "));
    assert!(is_blank(""));
    assert!(!is_blank(" x "));
}

#[test]
fn plain_text_splits_into_its_words() {
    let text = "  -f  best\u{2003}--no-mtime\n-o out.mp4 ";
    let expected: Vec<&str> = text.split_whitespace().collect();
    assert_eq!(parse_raw_args(text).unwrap(), expected);
}

#[test]
fn double_quoted_arguments_joined_by_spaces_round_trip() {
    let args = vec!["a b", "it's", "C:/x y"];
    let text = args.iter().map(|a| format!("\"{a}\"")).collect::<Vec<_>>().join(" ");
    assert_eq!(parse_raw_args(&text).unwrap(), args);
}

#[test]
fn odd_double_quotes_fail_even_ones_parse() {
    assert!(parse_raw_args(r#"a "b" "c"#).is_err());
    assert!(parse_raw_args(r#"""""#).is_err());
    assert_eq!(parse_raw_args(r#"a "b" "c d""#).unwrap(), vec!["a", "b", "c d"]);
}
