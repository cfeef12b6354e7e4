use dcleaner::text;
use dcleaner::text::CharSet;

fn chars(s: &str) -> Vec<char> {
    s.chars().collect()
}

fn strings(v: &[&str]) -> Vec<String> {
    v.iter().map(|s| s.to_string()).collect()
}

#[test]
fn white_space_agrees_with_std() {
    for n in 0..=0x10ffffu32 {
        if let Some(c) = char::from_u32(n) {
            assert_eq!(text::is_whitespace(c), c.is_whitespace(), "{:x}", n);
        }
    }
}

#[test]
fn lower_case_touches_ascii_only() {
    for s in ["", "ABCxyz", "MSIEXEC.EXE", "ÄÖÜ Straße", "@[`{", "日本語ABC"] {
        assert_eq!(text::lower_string(s), s.to_ascii_lowercase());
    }
}

#[test]
fn trimming_agrees_with_std() {
    for s in ["", "  ", "a", "  a b \t\n", "\u{3000}x\u{2003}", "\"q\"", "\u{feff}x "] {
        let cs = chars(s);
        assert_eq!(text::string_of(text::trimmed(&cs)), s.trim());
        assert_eq!(
            text::string_of(text::stripped(&cs, CharSet::Only('"'))),
            s.trim_matches('"')
        );
    }
    let dots = chars("..a.b..");
    assert_eq!(text::string_of(text::stripped_start(&dots, CharSet::Only('.'))), "a.b..");
}

#[test]
fn lines_agree_with_std() {
    for s in ["", "\n", "a", "a\n", "a\nb", "a\r\nb\r\n", "\r\n\r\nx", "a\rb\n", "a\r", "a\n\r\n"] {
        let expected: Vec<&str> = s.lines().collect();
        assert_eq!(text::split_lines(&chars(s)), expected, "{:?}", s);
    }
}

#[test]
fn decimal_numbers_are_written_as_usual() {
    for n in [0u128, 1, 9, 10, 99, 100, 1234567890, u64::MAX as u128, u128::MAX] {
        assert_eq!(text::decimal_string(n), n.to_string());
    }
}

#[test]
fn joining_puts_the_separator_between() {
    assert_eq!(text::join_strings(&strings(&[]), ", "), "");
    assert_eq!(text::join_strings(&strings(&["a"]), ", "), "a");
    assert_eq!(text::join_strings(&strings(&["a", "", "c"]), ", "), "a, , c");
    assert_eq!(text::concat2("a", "b"), "ab");
    assert_eq!(text::concat3("a", "b", "c"), "abc");
    assert_eq!(text::concat4("a", "b", "c", "d"), "abcd");
    assert_eq!(text::concat5("a", "b", "c", "d", "e"), "abcde");
}

#[test]
fn searching_finds_the_first_place() {
    let s = chars("x.exe.exe");
    assert_eq!(text::find(&s, &chars(".exe")), Some(1));
    assert_eq!(text::find(&s, &chars(".dll")), None);
    assert_eq!(text::find(&s, &[]), Some(0));
    assert!(text::stands_at(&s, &chars(".exe"), 5));
    assert!(!text::stands_at(&s, &chars(".exe"), 6));
    assert!(text::begins_with(&s, "x."));
    assert!(!text::begins_with(&s, "x.exe.exe."));
    assert!(text::has_text(&s, "exe"));
    assert!(!text::has_text(&s, "EXE"));
    assert_eq!(text::position_from(&s, '.', 2), 5);
    assert_eq!(text::position_from(&s, '!', 0), 9);
}

#[test]
fn text_order_agrees_with_std() {
    let all = ["", "-", "1", "10", "2", "a", "ab", "b", "é", "日", "\u{10000}", "\u{ffff}"];
    for a in all {
        for b in all {
            assert_eq!(text::is_less(a, b), a < b, "{:?} {:?}", a, b);
            assert_eq!(text::same_text(a, b), a == b);
        }
    }
    assert!(text::holds_text(&strings(&["a", "b"]), "b"));
    assert!(!text::holds_text(&strings(&["a", "b"]), "B"));
    assert_eq!(text::copy_strings(&strings(&["a", "b"])), ["a", "b"]);
}
