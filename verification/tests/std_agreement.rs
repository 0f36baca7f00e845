//! The splitting and trimming helpers agree with the standard library on
//! awkward inputs.

use dunedrop::split::{line_ranges, split_ranges, word_ranges};
use dunedrop::text::{chars_of, trim_string};

const SAMPLES: &[&str] = &[
    "",
    "a",
    "\n",
    "\n\n",
    "a\n",
    "a\nb",
    "a\r\nb\r\n",
    "a\r",
    "\r\n",
    "a\r\r\n",
    "x\rn\ny",
    "  lead and trail  ",
    "\u{3000}wide\u{a0}space\u{2028}",
    "one,two,,three,",
    ",",
    "tab\tsep\u{b}vt\u{c}ff",
    "déjà vu\n  ünïcode ,  text ",
];

fn pieces(s: &str, ranges: &[(usize, usize)]) -> Vec<String> {
    let chars = chars_of(s);
    ranges.iter().map(|&(a, b)| chars[a..b].iter().collect()).collect()
}

#[test]
fn lines_agree_with_str_lines() {
    for s in SAMPLES {
        let chars = chars_of(s);
        let expected: Vec<String> = s.lines().map(String::from).collect();
        assert_eq!(pieces(s, &line_ranges(&chars)), expected, "{s:?}");
    }
}

#[test]
fn words_agree_with_split_whitespace() {
    for s in SAMPLES {
        let chars = chars_of(s);
        let expected: Vec<String> = s.split_whitespace().map(String::from).collect();
        assert_eq!(pieces(s, &word_ranges(&chars, 0, chars.len())), expected, "{s:?}");
    }
}

#[test]
fn separator_split_agrees_with_str_split() {
    for s in SAMPLES {
        let chars = chars_of(s);
        let expected: Vec<String> = s.split(',').map(String::from).collect();
        assert_eq!(pieces(s, &split_ranges(&chars, 0, chars.len(), ',')), expected, "{s:?}");
    }
}

#[test]
fn trim_agrees_with_str_trim() {
    for s in SAMPLES {
        assert_eq!(trim_string(s), s.trim(), "{s:?}");
    }
}
