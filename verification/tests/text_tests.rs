use vivaldi_sync::order::text_le_exec;
use vivaldi_sync::text::{
    chars_of, decimal_text, is_white_space_char, lines, parse_u32, starts_with, text_eq, trim,
    trim_end_matches, trim_start_matches,
};

#[test]
fn chars_and_equality() {
    assert_eq!(chars_of("héllo"), vec!['h', 'é', 'l', 'l', 'o']);
    assert!(text_eq("abc", "abc"));
    assert!(!text_eq("abc", "abd"));
    assert!(!text_eq("abc", "ab"));
}

#[test]
fn prefixes() {
    assert!(starts_with("root:tabs", "root:"));
    assert!(!starts_with("roo", "root:"));
    assert!(starts_with("x", ""));
}

#[test]
fn trimming_patterns_repeats() {
    assert_eq!(trim_start_matches("__MSG___MSG_name__", "__MSG_"), "name__");
    assert_eq!(trim_end_matches("name____", "__"), "name");
    assert_eq!(trim_end_matches("name_", "__"), "name_");
    assert_eq!(trim_start_matches("abc", ""), "abc");
    assert_eq!(trim_end_matches("abc", ""), "abc");
}

#[test]
fn white_space_trim() {
    assert_eq!(trim("  /Applications/Vivaldi Sync.app \r\t"), "/Applications/Vivaldi Sync.app");
    assert_eq!(trim("\u{3000}x\u{a0}"), "x");
    assert_eq!(trim("   "), "");
    assert!(is_white_space_char('\u{2028}'));
    assert!(!is_white_space_char('a'));
}

#[test]
fn lines_like_str_lines() {
    for s in ["", "a", "a\n", "\n", "a\r\nb", "a\n\nb\n", "x\r", "a\rb\n"] {
        let expected: Vec<String> = s.lines().map(|l| l.to_string()).collect();
        assert_eq!(lines(s), expected, "input {:?}", s);
    }
}

#[test]
fn parse_like_u32_from_str() {
    for s in ["0", "42", "+7", "+", "-1", "", "4294967295", "4294967296", "99999999999", "1a", " 1", "007"] {
        assert_eq!(parse_u32(s), s.parse::<u32>().ok(), "input {:?}", s);
    }
}

#[test]
fn decimals() {
    assert_eq!(decimal_text(0), "0");
    assert_eq!(decimal_text(7), "7");
    assert_eq!(decimal_text(1203), "1203");
    assert_eq!(decimal_text(usize::MAX), usize::MAX.to_string());
}

#[test]
fn text_order_matches_string_order() {
    let words = ["", "a", "B", "b", "ab", "abc", "Ä", "z", "é"];
    for a in words {
        for b in words {
            assert_eq!(text_le_exec(&chars_of(a), &chars_of(b)), a <= b, "{:?} {:?}", a, b);
        }
    }
}
