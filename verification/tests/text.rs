use guitarpro::text::{contains_str, find_substring, parse_usize, split_at_char, trim};

#[test]
fn trim_strips_unicode_whitespace() {
    assert_eq!(trim("  a b \t\n"), "a b");
    assert_eq!(trim("\u{3000}x\u{a0}"), "x");
    assert_eq!(trim("   "), "");
    assert_eq!(trim(""), "");
}

#[test]
fn split_matches_str_split() {
    let s = "a,,bc,";
    let pieces: Vec<&str> = split_at_char(s, ',').iter().map(|&(a, b)| &s[a..b]).collect();
    assert_eq!(pieces, s.split(',').collect::<Vec<_>>());
    assert_eq!(split_at_char("", ','), vec![(0, 0)]);
}

#[test]
fn substring_search_finds_first_occurrence() {
    assert_eq!(find_substring("abcabc", "ca"), Some(2));
    assert_eq!(find_substring("abc", ""), Some(0));
    assert_eq!(find_substring("abc", "abcd"), None);
    assert!(contains_str("lead guitar", "guit"));
    assert!(!contains_str("bass", "drum"));
}

#[test]
fn parse_usize_reads_unsigned_decimals() {
    assert_eq!(parse_usize("42"), Some(42));
    assert_eq!(parse_usize("+7"), Some(7));
    assert_eq!(parse_usize("007"), Some(7));
    assert_eq!(parse_usize("+"), None);
    assert_eq!(parse_usize(""), None);
    assert_eq!(parse_usize("-1"), None);
    assert_eq!(parse_usize("1 "), None);
    assert_eq!(parse_usize("99999999999999999999999"), None);
    assert_eq!(parse_usize(&usize::MAX.to_string()), Some(usize::MAX));
}
