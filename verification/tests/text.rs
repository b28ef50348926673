use ui::text::{
    chars_of, contains_seq, find_char, is_whitespace_char, lines_of, parse_i32_at, parse_u32_at,
    push_padded, push_padded_signed, split_chars, starts_with_seq, strip_prefix_range, trim_range,
};

fn s(v: &[char]) -> String {
    v.iter().collect()
}

#[test]
fn lines_split_like_str_lines() {
    let text = "foo\r\nbar\n\nbaz\r";
    let v = chars_of(text);
    let got: Vec<String> = lines_of(&v).iter().map(|l| s(l)).collect();
    let want: Vec<String> = text.lines().map(|l| l.to_string()).collect();
    assert_eq!(got, want);
    assert_eq!(got, vec!["foo", "bar", "", "baz\r"]);
    let v = chars_of("a\n");
    assert_eq!(lines_of(&v).len(), 1);
    assert!(lines_of(&Vec::new()).is_empty());
}

#[test]
fn trim_like_str_trim() {
    for t in ["  x y \t", "\u{3000}abc\u{a0}", "   ", "", "z"] {
        let v = chars_of(t);
        assert_eq!(s(&trim_range(&v, 0, v.len())), t.trim());
    }
    assert!(is_whitespace_char('\u{2009}'));
    assert!(!is_whitespace_char('_'));
}

#[test]
fn numbers_parse_like_str_parse() {
    let v = chars_of("+42|-7|4294967296|00");
    assert_eq!(parse_u32_at(&v, 0, 3), Some(42));
    assert_eq!(parse_i32_at(&v, 4, 6), Some(-7));
    assert_eq!(parse_u32_at(&v, 4, 6), None);
    assert_eq!(parse_u32_at(&v, 7, 17), None);
    assert_eq!(parse_u32_at(&v, 18, 20), Some(0));
    assert_eq!(parse_u32_at(&v, 0, 0), None);
}

#[test]
fn padding_and_searching() {
    let mut out = Vec::new();
    push_padded(7, 3, &mut out);
    push_padded_signed(-5, 3, &mut out);
    push_padded(12345, 2, &mut out);
    assert_eq!(s(&out), "007-0512345");
    let v = chars_of("a-b--c");
    let parts: Vec<String> = split_chars(&v, '-').iter().map(|p| s(p)).collect();
    assert_eq!(parts, vec!["a", "b", "", "c"]);
    assert_eq!(find_char(&v, '-'), Some(1));
    assert_eq!(find_char(&v, 'x'), None);
    assert!(starts_with_seq(&"abc".to_string(), &"ab".to_string()));
    assert!(!starts_with_seq(&"abc".to_string(), &"b".to_string()));
    assert!(contains_seq(&"abc".to_string(), &"bc".to_string()));
    assert!(contains_seq(&"abc".to_string(), &"".to_string()));
    assert!(!contains_seq(&"abc".to_string(), &"cd".to_string()));
    let w = chars_of("Icon=x");
    assert_eq!(strip_prefix_range(&w, 0, w.len(), "Icon="), Some(5));
    assert_eq!(strip_prefix_range(&w, 1, w.len(), "Icon="), None);
}
