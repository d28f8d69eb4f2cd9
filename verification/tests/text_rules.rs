use iureocr::text::{
    ascii_lowercase, chars_of, contains_char, count_matches_str, decimal_string, lines_of,
    parse_usize_str, same_text, starts_with, trim, white_space, zero_padded_string,
};

#[test]
fn trimming_unicode_white_space() {
    assert_eq!(trim("  spa+eng \n"), "spa+eng");
    assert_eq!(trim("\u{3000}\u{a0}x\u{2009}"), "x");
    assert_eq!(trim(" \t "), "");
    assert!(white_space('\u{85}'));
    assert!(!white_space('\u{200b}'));
}

#[test]
fn decimal_numbers() {
    assert_eq!(decimal_string(0), "0");
    assert_eq!(decimal_string(300), "300");
    assert_eq!(decimal_string(u64::MAX), u64::MAX.to_string());
    assert_eq!(zero_padded_string(7, 5), "00007");
    assert_eq!(zero_padded_string(123456, 5), "123456");
}

#[test]
fn parsing_unsigned_numbers() {
    assert_eq!(parse_usize_str("42"), Some(42));
    assert_eq!(parse_usize_str("+7"), Some(7));
    assert_eq!(parse_usize_str("+"), None);
    assert_eq!(parse_usize_str(""), None);
    assert_eq!(parse_usize_str("-1"), None);
    assert_eq!(parse_usize_str("3a"), None);
    assert_eq!(parse_usize_str("99999999999999999999999"), None);
    assert_eq!(parse_usize_str(&usize::MAX.to_string()), Some(usize::MAX));
}

#[test]
fn decimal_round_trip() {
    for n in [0u64, 1, 9, 10, 72, 600, 65535, 1 << 40] {
        assert_eq!(parse_usize_str(&decimal_string(n)), Some(n as usize));
    }
}

#[test]
fn splitting_lines() {
    assert_eq!(lines_of(""), Vec::<String>::new());
    assert_eq!(lines_of("a\nb"), vec!["a", "b"]);
    assert_eq!(lines_of("a\r\nb\n"), vec!["a", "b"]);
    assert_eq!(lines_of("a\n\nb\r"), vec!["a", "", "b\r"]);
    assert_eq!(lines_of("\n"), vec![""]);
    let text = "x\r\ny\n\nz";
    assert_eq!(lines_of(text), text.lines().collect::<Vec<_>>());
}

#[test]
fn small_string_helpers() {
    assert_eq!(ascii_lowercase("JPeG"), "jpeg");
    assert_eq!(ascii_lowercase("ÁB"), "Áb");
    assert!(starts_with("Page 3", "Page "));
    assert!(!starts_with("Pag", "Page "));
    assert!(contains_char("a b", ' '));
    assert!(!contains_char("ab", ' '));
    assert!(same_text("pdf", "pdf"));
    assert!(!same_text("pdf", "pd"));
    assert_eq!(chars_of("añ"), vec!['a', 'ñ']);
    assert_eq!(count_matches_str("aaaa", "aa"), 2);
    assert_eq!(count_matches_str("\nPage 1\nPage 2", "\nPage "), 2);
}
