use lowresourcecapture::text::{
    contains_ignore_ascii_case, eq_ignore_ascii_case, is_blank, parse_u32, push_decimal,
    push_zero_padded, str_eq,
};

#[test]
fn exact_and_case_insensitive_equality() {
    assert!(str_eq("abc", "abc"));
    assert!(!str_eq("abc", "abd"));
    assert!(!str_eq("abc", "ab"));
    assert!(eq_ignore_ascii_case("Chrome.EXE", "chrome.exe"));
    assert!(!eq_ignore_ascii_case("chrome.exe", "chrome.ex"));
    assert!(!eq_ignore_ascii_case("É", "é"), "only ASCII letters fold");
    assert!(eq_ignore_ascii_case("[", "["));
    assert!(!eq_ignore_ascii_case("[", "{"));
    let list = vec!["A.exe".to_string(), "b.EXE".to_string()];
    assert!(contains_ignore_ascii_case(&list, "B.exe"));
    assert!(!contains_ignore_ascii_case(&list, "c.exe"));
}

#[test]
fn blank_means_only_whitespace() {
    assert!(is_blank(""));
    assert!(is_blank(" \t\n\u{3000}"));
    assert!(!is_blank(" x "));
}

#[test]
fn parse_u32_matches_std() {
    for s in ["0", "15", "+7", "4294967295", "4294967296", "", "+", "-1", "1a", " 1", "007"] {
        assert_eq!(parse_u32(s), s.parse::<u32>().ok(), "input {s:?}");
    }
}

#[test]
fn decimal_formatting_matches_std() {
    for n in [0u32, 7, 10, 99, 2026, 4294967295] {
        let mut s = String::from("x");
        push_decimal(&mut s, n);
        assert_eq!(s, format!("x{n}"));
        let mut p = String::new();
        push_zero_padded(&mut p, n, 4);
        assert_eq!(p, format!("{n:04}"));
    }
}

#[test]
fn white_space_is_the_standard_library_s() {
    for c in (0u32..=0x10FFFF).filter_map(char::from_u32) {
        assert_eq!(is_blank(&c.to_string()), c.is_whitespace(), "U+{:04X}", c as u32);
    }
}
