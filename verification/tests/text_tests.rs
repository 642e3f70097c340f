use steamtop::text::{
    chars_of, contains_text, first_line, is_space_char, parse_decimal, same_text, split_text,
    text_before, trim,
};

#[test]
fn trim_removes_ascii_whitespace() {
    assert_eq!(trim("  a b \n"), "a b");
    assert_eq!(trim("\t\r\n"), "");
    assert_eq!(trim(""), "");
    assert_eq!(trim("x"), "x");
}

#[test]
fn trim_removes_unicode_whitespace() {
    assert_eq!(trim("\u{3000}x y\u{a0}\u{2028}"), "x y");
    assert_eq!(trim("\u{85}z"), "z");
    // A zero-width space is no whitespace.
    assert_eq!(trim("\u{200b}q"), "\u{200b}q");
}

#[test]
fn trim_matches_std() {
    for s in ["  hello  ", "\u{1680}a\u{205f}", "a\u{200a}", " \u{feff}b "] {
        assert_eq!(trim(s), s.trim());
    }
}

#[test]
fn space_chars() {
    assert!(is_space_char(' '));
    assert!(is_space_char('\u{b}'));
    assert!(is_space_char('\u{202f}'));
    assert!(!is_space_char('a'));
    assert!(!is_space_char('\u{200b}'));
}

#[test]
fn chars_of_copies_characters() {
    assert_eq!(chars_of("aé€"), vec!['a', 'é', '€']);
    assert_eq!(chars_of(""), Vec::<char>::new());
}

#[test]
fn contains_text_finds_substrings() {
    assert!(contains_text("/games/steamapps/common", "steamapps"));
    assert!(contains_text("abc", ""));
    assert!(contains_text("abc", "abc"));
    assert!(!contains_text("ab", "abc"));
    assert!(!contains_text("steamapp", "steamapps"));
    assert!(contains_text("ééx", "éx"));
}

#[test]
fn parse_decimal_accepts_what_std_accepts() {
    assert_eq!(parse_decimal("42", 255), Some(42));
    assert_eq!(parse_decimal("+42", 255), Some(42));
    assert_eq!(parse_decimal("007", 255), Some(7));
    assert_eq!(parse_decimal("255", 255), Some(255));
    assert_eq!(parse_decimal("18446744073709551615", u64::MAX), Some(u64::MAX));
}

#[test]
fn parse_decimal_rejects_what_std_rejects() {
    assert_eq!(parse_decimal("256", 255), None);
    assert_eq!(parse_decimal("", 255), None);
    assert_eq!(parse_decimal("+", 255), None);
    assert_eq!(parse_decimal("-1", 255), None);
    assert_eq!(parse_decimal("-0", 255), None);
    assert_eq!(parse_decimal(" 1", 255), None);
    assert_eq!(parse_decimal("1 ", 255), None);
    assert_eq!(parse_decimal("N/A", u64::MAX), None);
    assert_eq!(parse_decimal("18446744073709551616", u64::MAX), None);
    assert_eq!(parse_decimal("99999999999999999999999x", u64::MAX), None);
}

#[test]
fn parse_decimal_agrees_with_std() {
    for s in ["0", "+0", "12", "+255", "256", "", "+", "-3", "1_0", "٣", "00000000000000000000042"] {
        assert_eq!(parse_decimal(s, 255).map(|v| v as u8), s.parse::<u8>().ok());
        assert_eq!(parse_decimal(s, u64::MAX), s.parse::<u64>().ok());
    }
}

#[test]
fn first_line_stops_at_line_feed() {
    assert_eq!(first_line("abc\ndef\n"), "abc");
    assert_eq!(first_line("abc"), "abc");
    assert_eq!(first_line("\nabc"), "");
    assert_eq!(first_line("ab\r\ncd"), "ab\r");
    assert_eq!(first_line(""), "");
}

#[test]
fn split_text_yields_one_more_piece_than_separators() {
    assert_eq!(split_text("a,,b", ','), vec!["a", "", "b"]);
    assert_eq!(split_text("", ','), vec![""]);
    assert_eq!(split_text(",", ','), vec!["", ""]);
    assert_eq!(split_text("x, y", ','), vec!["x", " y"]);
    let s = "GPU, 1, 2, 3";
    let ours = split_text(s, ',');
    let std_pieces: Vec<&str> = s.split(',').collect();
    assert_eq!(ours, std_pieces);
}

#[test]
fn text_before_orders_by_code_point() {
    assert!(text_before("Apple", "apple"));
    assert!(!text_before("apple", "Apple"));
    assert!(text_before("ab", "abc"));
    assert!(!text_before("abc", "abc"));
    assert!(text_before("", "a"));
    assert!(!text_before("a", ""));
    assert!(text_before("z", "é"));
    for (a, b) in [("b", "a"), ("a", "b"), ("é", "ê"), ("", ""), ("ab", "a")] {
        assert_eq!(text_before(a, b), a < b);
    }
}

#[test]
fn same_text_compares_characters() {
    assert!(same_text("0x1002", "0x1002"));
    assert!(!same_text("0x1002", "0x10020"));
    assert!(!same_text("a", "b"));
    assert!(same_text("", ""));
}
