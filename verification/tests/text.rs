use herdr_devcontainer_status::text::{
    chars_of, is_space, last_lines, parse_i32, parse_u16, same, same_ignoring_ascii_case,
    split_fields, split_lines, starts_with, strip_prefix, strip_suffix, to_decimal,
    to_signed_decimal, trim,
};

const SAMPLES: [&str; 18] = [
    "",
    " ",
    "a",
    "a\n",
    "\n",
    "\r\n",
    "\r",
    "a\r",
    "a\r\nb\r",
    "a\n\nb\n\n",
    "\n\na",
    "  padded\t",
    "tab\tseparated\t\tfields\t",
    "\u{a0}wide\u{3000}",
    "\u{200b}zero width\u{200b}",
    "é\r\r\nü",
    "\tx\n\ty\n",
    "none of it",
];

#[test]
fn white_space_is_what_unicode_says() {
    for n in 0..=0x10ffffu32 {
        if let Some(c) = char::from_u32(n) {
            assert_eq!(is_space(c), c.is_whitespace(), "{n:#x}");
        }
    }
}

#[test]
fn texts_are_cut_as_the_standard_library_cuts_them() {
    for s in SAMPLES {
        assert_eq!(trim(s), s.trim());
        assert_eq!(split_lines(s), s.lines().collect::<Vec<_>>());
        assert_eq!(split_fields(s, '\t'), s.split('\t').collect::<Vec<_>>());
        assert_eq!(chars_of(s), s.chars().collect::<Vec<_>>());
        for t in SAMPLES {
            assert_eq!(same(s, t), s == t);
            assert_eq!(strip_prefix(s, t), s.strip_prefix(t));
            assert_eq!(strip_suffix(s, t), s.strip_suffix(t));
            assert_eq!(starts_with(s, t), s.starts_with(t));
        }
    }
}

#[test]
fn ascii_case_is_ignored_and_no_other() {
    assert!(same_ignoring_ascii_case("Running", "rUNNING"));
    assert!(!same_ignoring_ascii_case("É", "é"));
    assert!(!same_ignoring_ascii_case("run", "running"));
    for a in ["@", "A", "Z", "[", "`", "a", "z", "{", "K", "\u{212a}"] {
        for b in ["@", "A", "Z", "[", "`", "a", "z", "{", "k", "\u{212a}"] {
            assert_eq!(same_ignoring_ascii_case(a, b), a.eq_ignore_ascii_case(b));
        }
    }
}

#[test]
fn numbers_are_read_as_the_standard_library_reads_them() {
    for s in [
        "", "+", "-", "0", "-0", "+0", "00", "7", "+7", "-7", "++7", "+-7", "7 ", " 7", "7a", "٣",
        "65535", "65536", "+65535", "065535", "47100", "99999999999999999999", "2147483647",
        "2147483648", "-2147483648", "-2147483649", "+2147483647", "-00012", "1_000", "0x10",
    ] {
        assert_eq!(parse_u16(s), s.parse::<u16>().ok(), "{s:?}");
        assert_eq!(parse_i32(s), s.parse::<i32>().ok(), "{s:?}");
    }
}

#[test]
fn numbers_read_back_as_written() {
    for n in [0u16, 1, 9, 10, 99, 100, 47100, u16::MAX] {
        assert_eq!(to_decimal(n as u64), n.to_string());
        assert_eq!(parse_u16(&to_decimal(n as u64)), Some(n));
    }
    assert_eq!(to_decimal(u64::MAX), u64::MAX.to_string());
    for n in [0i32, 1, -1, 10, -10, i32::MAX, i32::MIN] {
        assert_eq!(to_signed_decimal(n), n.to_string());
        assert_eq!(parse_i32(&to_signed_decimal(n)), Some(n));
    }
}

#[test]
fn the_last_lines_are_joined() {
    assert_eq!(last_lines("a\nb\r\nc", 2), "b\nc");
    assert_eq!(last_lines("a\nb\n", 0), "");
    assert_eq!(last_lines("", 3), "");
    assert_eq!(last_lines("a\n\n", 1), "");
}
