use maker_bot::text;

#[test]
fn numbers_in_decimal_notation() {
    for n in [0u64, 7, 10, 99, 100, 1234567890, u64::MAX] {
        assert_eq!(text::decimal(n), n.to_string());
    }
    for n in [0i64, -1, 42, -300, i64::MIN, i64::MAX] {
        assert_eq!(text::signed_decimal(n), n.to_string());
    }
}

#[test]
fn searching() {
    assert!(text::contains("error 429!", "429"));
    assert!(text::contains("429", "429"));
    assert!(!text::contains("42", "429"));
    assert!(text::contains("abc", ""));
    assert!(text::starts_with("paper-1", "paper-"));
    assert!(!text::starts_with("paper", "paper-"));
    assert!(!text::starts_with("x[", "["));
    assert!(text::same("é", "é"));
    assert!(!text::same("a", "A"));
}

#[test]
fn cutting() {
    assert_eq!(text::first_chars("ünïcödé!", 4), "ünïc");
    assert_eq!(text::first_chars("ab", 4), "ab");
    for s in ["\"\"a\"", "a", "\"", "", "\"\"", "a\"b", "\"x y\""] {
        assert_eq!(text::unquoted(s), s.trim_matches('"'), "{s}");
    }
}

#[test]
fn white_space_is_trimmed() {
    for s in ["", " ", "  a b\t\n", "a", "\u{2003}x\u{3000}", "\u{200b}a\u{200b}"] {
        assert_eq!(text::trim(s), s.trim(), "{s:?}");
    }
    for c in '\0'..=char::MAX {
        let s = format!("{c}a{c}");
        if c.is_whitespace() {
            assert_eq!(text::trim(&s), "a", "{c:?}");
        } else if c.is_control() || (c as u32) < 0x3100 {
            assert_eq!(text::trim(&s), s, "{c:?}");
        }
    }
}

#[test]
fn ascii_names_can_always_be_cut() {
    let name = "0x0123456789abcdef0123456789abcdef";
    for n in 0..40 {
        assert!(text::can_clip(name, n));
        assert_eq!(text::clip(name, n), &name[..n.min(name.len())]);
    }
    assert!(!text::can_clip("é", 1));
}

#[test]
fn lists_of_texts() {
    let list = vec!["a".to_string(), "b".to_string()];
    assert!(text::listed(&list, &"b".to_string()));
    assert!(!text::listed(&list, &"c".to_string()));
    assert_eq!(text::copied(&list), list);
}
