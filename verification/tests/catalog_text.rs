use dunedrop::catalog::{parse_help, parse_signature, split_signature_description};
use dunedrop::tools::{utility_response, ytdlp_catalog, ytdlp_version, CommandOutput};

#[test]
fn splits_signature_at_first_double_space() {
    assert_eq!(
        split_signature_description("-o, --output TEMPLATE  Output   file name  "),
        ("-o, --output TEMPLATE", "Output   file name")
    );
    assert_eq!(split_signature_description("--version"), ("--version", ""));
    assert_eq!(split_signature_description("a b c"), ("a b c", ""));
}

#[test]
fn parses_flags_and_argument_placeholder() {
    let (flags, argument) = parse_signature("-o, --output TEMPLATE");
    assert_eq!(flags, vec!["-o", "--output"]);
    assert_eq!(argument.as_deref(), Some("TEMPLATE"));
    let (flags, argument) = parse_signature("-h, --help");
    assert_eq!(flags, vec!["-h", "--help"]);
    assert_eq!(argument, None);
    let (flags, argument) = parse_signature("--sleep-interval SECONDS  MORE, , --x");
    assert_eq!(flags, vec!["--sleep-interval", "--x"]);
    assert_eq!(argument.as_deref(), Some("SECONDS MORE"));
    let (flags, argument) = parse_signature("");
    assert!(flags.is_empty());
    assert_eq!(argument, None);
}

#[test]
fn options_before_any_heading_go_to_general() {
    let sections = parse_help("    -h, --help        Print this help\n");
    assert_eq!(sections.len(), 1);
    assert_eq!(sections[0].name, "General");
    assert_eq!(sections[0].options[0].flags, vec!["-h", "--help"]);
    assert_eq!(sections[0].options[0].description, "Print this help");
}

#[test]
fn descriptions_continue_over_lines_and_repeated_sections_merge() {
    let help = "Network Options:\r\n    --proxy URL           Use the\r\n                          given proxy\r\n\r\nAuthentication:\n    -p, --password PASSWORD  Account\n        password\nNetwork Options::\n    --exec CMD  Run\n";
    let sections = parse_help(help);
    assert_eq!(sections.len(), 2);
    assert_eq!(sections[0].name, "Network Options");
    assert_eq!(sections[0].options.len(), 2);
    assert_eq!(sections[0].options[0].description, "Use the given proxy");
    assert_eq!(sections[0].options[0].argument.as_deref(), Some("URL"));
    assert!(!sections[0].options[0].dangerous);
    assert!(sections[0].options[1].dangerous);
    assert_eq!(sections[0].options[1].flags, vec!["--exec"]);
    assert_eq!(sections[1].name, "Authentication");
    assert!(sections[1].options[0].sensitive);
    assert_eq!(sections[1].options[0].description, "Account password");
}

#[test]
fn text_outside_options_is_ignored() {
    let sections = parse_help("Usage: yt-dlp [OPTIONS] URL\n\nplain text\n");
    assert!(sections.is_empty());
}

fn output(success: bool, stdout: &[u8], stderr: &[u8]) -> CommandOutput {
    CommandOutput { success, stdout: stdout.to_vec(), stderr: stderr.to_vec() }
}

#[test]
fn version_is_trimmed_standard_output() {
    assert_eq!(ytdlp_version(&output(true, b"2025.01.15\r\n", b"")).unwrap(), "2025.01.15");
    assert_eq!(ytdlp_version(&output(false, b"x", b"  broken\n")).unwrap_err(), "broken");
}

#[test]
fn invalid_utf8_becomes_replacement_characters() {
    assert_eq!(ytdlp_version(&output(true, b"v\xff1", b"")).unwrap(), "v\u{fffd}1");
    let response = utility_response(&output(false, b"ok\n", b"\xc3\xa9rr"));
    assert_eq!(response.stdout, "ok\n");
    assert_eq!(response.stderr, "\u{e9}rr");
    assert!(!response.success);
}

#[test]
fn catalog_from_help_output() {
    let sections = ytdlp_catalog(&output(true, b"General Options:\n    -U, --update  Update\n", b"")).unwrap();
    assert_eq!(sections[0].name, "General Options");
    assert_eq!(sections[0].options[0].flags, vec!["-U", "--update"]);
    assert!(ytdlp_catalog(&output(false, b"", b"no\n")).is_err());
}

#[test]
fn each_option_line_gives_one_option_in_order() {
    let help = "A:\n    -a  first\n    -b  second\n        more\nB:\n    -c X  third\nA:\n    -d  fourth\n\n    -e\n";
    let sections = parse_help(help);
    let option_lines = help.lines().filter(|l| l.starts_with("    -")).count();
    let total: usize = sections.iter().map(|s| s.options.len()).sum();
    assert_eq!(total, option_lines);
    let names: Vec<&str> = sections.iter().map(|s| s.name.as_str()).collect();
    assert_eq!(names, vec!["A", "B"]);
    let first_flags: Vec<&str> = sections[0].options.iter().map(|o| o.flags[0].as_str()).collect();
    assert_eq!(first_flags, vec!["-a", "-b", "-d", "-e"]);
    assert_eq!(sections[1].options[0].argument.as_deref(), Some("X"));
}
