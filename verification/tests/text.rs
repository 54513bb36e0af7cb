use term_chat::layout::{center, clip, ellipsize, fit, pad};
use term_chat::numbers::{decimal, parse_i64};
use term_chat::text;

const SAMPLES: [&str; 10] = [
    "",
    " ",
    "abc",
    "  Grüße,\tWelt \u{3000}",
    "aXbXXc\r\nline two\n\nlast\r\n",
    "one  two\u{a0}three\u{2003}",
    "oauth:oauth:token",
    "é♥x\u{1f600}x",
    "\n",
    "no end\r",
];

#[test]
fn white_space_is_that_of_std() {
    for n in 0..=0x10ffffu32 {
        if let Some(c) = char::from_u32(n) {
            assert_eq!(text::white(c), c.is_whitespace(), "{:?}", c);
        }
    }
}

#[test]
fn trimming_and_case_are_those_of_std() {
    for s in SAMPLES {
        assert_eq!(text::trim(s), s.trim());
        assert_eq!(text::lower_ascii(s), s.to_ascii_lowercase());
    }
}

#[test]
fn searching_and_replacing_are_those_of_std() {
    for s in SAMPLES {
        for pat in ["X", "XX", "two", "\u{1f600}", "zzz", "a"] {
            assert_eq!(text::contains(s, pat), s.contains(pat));
            assert_eq!(text::starts_with(s, pat), s.starts_with(pat));
            assert_eq!(text::replace_first(s, pat, "<>"), s.replacen(pat, "<>", 1));
            assert_eq!(text::replace_all(s, pat, "<>"), s.replace(pat, "<>"));
            assert_eq!(text::strip_front(s, pat), s.trim_start_matches(pat));
        }
    }
    assert_eq!(text::strip_front("oauth:oauth:token", "oauth:"), "token");
}

#[test]
fn splitting_and_joining_are_those_of_std() {
    for s in SAMPLES {
        assert_eq!(text::lines(s), s.lines().map(String::from).collect::<Vec<String>>());
        assert_eq!(text::words(s), s.split_whitespace().map(String::from).collect::<Vec<String>>());
        assert_eq!(text::count_char(s, 'X'), s.chars().filter(|c| *c == 'X').count());
        assert_eq!(text::cut_before(s, 'X'), s.split('X').next().unwrap());
    }
    let parts = vec!["a".to_string(), "".to_string(), "c".to_string()];
    assert_eq!(text::join(&parts, " | "), parts.join(" | "));
    assert_eq!(text::join(&Vec::new(), " | "), "");
    assert!(text::list_contains(&parts, "c"));
    assert!(!text::list_contains(&parts, "b"));
}

#[test]
fn filling_is_that_of_the_formatter() {
    for s in SAMPLES {
        for width in [0usize, 1, 2, 5, 8, 9, 30] {
            assert_eq!(center(s, width), format!("{:^width$}", s, width = width));
            assert_eq!(pad(s, width), format!("{:<width$}", s, width = width));
            assert_eq!(clip(s, width), s.chars().take(width).collect::<String>());
            assert_eq!(fit(s, width).chars().count(), width);
        }
    }
    assert_eq!(ellipsize("abcdef", 4), "abc…");
    assert_eq!(ellipsize("abcd", 4), "abcd");
    assert_eq!(ellipsize("a", 0), "…");
}

#[test]
fn numbers_read_and_write_like_std() {
    for n in [0u64, 7, 10, 99, 100, 65535, 4_000_000_000, u64::MAX] {
        assert_eq!(decimal(n), n.to_string());
    }
    for s in [
        "", "-", "+", "0", "-0", "+7", "007", "12a", " 1", "1 ", "9223372036854775807",
        "9223372036854775808", "-9223372036854775808", "-9223372036854775809",
        "99999999999999999999999999999999999999999999", "--1", "٣",
    ] {
        assert_eq!(parse_i64(s), s.parse::<i64>().ok(), "{:?}", s);
    }
    assert_eq!(parse_i64(&decimal(123_456)), Some(123_456));
}
