use ffxiv_item_name_database_api::text::{chars_of, contains, parse_u32, parse_u32_chars};

#[test]
fn parse_u32_reads_decimal_numbers() {
    assert_eq!(parse_u32("0"), Some(0));
    assert_eq!(parse_u32("42"), Some(42));
    assert_eq!(parse_u32("007"), Some(7));
    assert_eq!(parse_u32("+15"), Some(15));
    assert_eq!(parse_u32("4294967295"), Some(u32::MAX));
}

#[test]
fn parse_u32_rejects_what_is_not_a_u32() {
    assert_eq!(parse_u32(""), None);
    assert_eq!(parse_u32("+"), None);
    assert_eq!(parse_u32("-1"), None);
    assert_eq!(parse_u32("-0"), None);
    assert_eq!(parse_u32("4294967296"), None);
    assert_eq!(parse_u32("99999999999999999999"), None);
    assert_eq!(parse_u32("1a"), None);
    assert_eq!(parse_u32(" 1"), None);
    assert_eq!(parse_u32("1 "), None);
    assert_eq!(parse_u32("++1"), None);
}

#[test]
fn parse_u32_agrees_with_std() {
    for s in ["0", "1", "12", "+3", "4294967295", "4294967296", "", "x", "-5", "0x10", "１"] {
        assert_eq!(parse_u32(s), s.parse::<u32>().ok(), "{}", s);
    }
}

#[test]
fn parse_u32_chars_reads_a_range() {
    let cs = chars_of("12,345");
    assert_eq!(parse_u32_chars(&cs, 0, 2), Some(12));
    assert_eq!(parse_u32_chars(&cs, 3, 6), Some(345));
    assert_eq!(parse_u32_chars(&cs, 2, 3), None);
    assert_eq!(parse_u32_chars(&cs, 2, 2), None);
}

#[test]
fn chars_of_keeps_unicode_characters() {
    assert_eq!(chars_of("ポーション"), vec!['ポ', 'ー', 'シ', 'ョ', 'ン']);
    assert_eq!(chars_of(""), Vec::<char>::new());
}

#[test]
fn contains_is_a_literal_case_sensitive_match() {
    assert!(contains("Potion", "tio"));
    assert!(contains("Potion", "Potion"));
    assert!(contains("Potion", ""));
    assert!(contains("", ""));
    assert!(!contains("Potion", "potion"));
    assert!(!contains("Potion", "Potions"));
    assert!(!contains("", "a"));
    assert!(contains("Hi-Potion", "-P"));
    assert!(contains("ハイポーション", "ポーション"));
    assert!(!contains("ハイポーション", "ポーションX"));
}
