use hasuchanbot::order::string_lt;
use hasuchanbot::text::{
    chars_of, contains_chars, decimal_chars, is_whitespace, parse_i64, parse_usize, starts_with_chars,
    string_of, trim_chars, usize_to_string,
};

fn chars(s: &str) -> Vec<char> {
    s.chars().collect()
}

#[test]
fn chars_and_strings_convert_both_ways() {
    assert_eq!(chars_of("a貼b"), vec!['a', '貼', 'b']);
    assert_eq!(string_of(&['x', 'y']), "xy");
    assert_eq!(string_of(&[]), "");
}

#[test]
fn trim_removes_unicode_white_space_at_both_ends() {
    assert_eq!(string_of(&trim_chars(&chars("  12 \t\n"))), "12");
    assert_eq!(string_of(&trim_chars(&chars("\u{3000}a b\u{a0}"))), "a b");
    assert_eq!(string_of(&trim_chars(&chars(" \r\n "))), "");
    assert!(is_whitespace('\u{85}'));
    assert!(!is_whitespace('x'));
    for s in ["", " x ", "\u{2000}y\u{200a}", "\u{202f}z", "a\u{205f}"] {
        assert_eq!(string_of(&trim_chars(&chars(s))), s.trim());
    }
}

#[test]
fn contains_and_starts_with() {
    assert!(contains_chars(&chars("我們貼貼吧"), &chars("貼貼")));
    assert!(!contains_chars(&chars("貼"), &chars("貼貼")));
    assert!(contains_chars(&chars("abc"), &chars("")));
    assert!(starts_with_chars(&chars("qtsto 2"), &chars("qtsto ")));
    assert!(!starts_with_chars(&chars("qtsto"), &chars("qtsto ")));
}

#[test]
fn decimal_numbers_print_as_to_string_does() {
    assert_eq!(usize_to_string(0), "0");
    assert_eq!(usize_to_string(1234), "1234");
    assert_eq!(usize_to_string(usize::MAX), usize::MAX.to_string());
    assert_eq!(decimal_chars(907), vec!['9', '0', '7']);
}

#[test]
fn parse_usize_follows_from_str() {
    for s in ["", "+", "-1", "12", "+12", "007", "1 2", "18446744073709551615", "18446744073709551616", "99999999999999999999x"] {
        assert_eq!(parse_usize(&chars(s)), s.parse::<usize>().ok(), "{}", s);
    }
}

#[test]
fn parse_i64_follows_from_str() {
    for s in ["", "-", "+", "-0", "42", "+42", "-42", "9223372036854775807", "9223372036854775808", "-9223372036854775808", "-9223372036854775809", "1a", "٣"] {
        assert_eq!(parse_i64(&chars(s)), s.parse::<i64>().ok(), "{}", s);
    }
}

#[test]
fn strings_compare_as_string_does() {
    let words = ["", "a", "ab", "b", "Z", "é", "貼", "\u{7f}", "\u{80}"];
    for x in words {
        for y in words {
            assert_eq!(string_lt(&x.to_string(), &y.to_string()), x < y, "{} {}", x, y);
        }
    }
}
