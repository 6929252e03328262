use rmcp_proxy::text::{
    contains, is_blank, joined, lines, push_decimal, starts_with, text_of, trim,
};

#[test]
fn contains_finds_text_anywhere() {
    assert!(contains("application/json", "application/json"));
    assert!(contains("text/html, application/json;q=0.9", "application/json"));
    assert!(!contains("application/jso", "application/json"));
    assert!(contains("abc", ""));
    assert!(contains("", ""));
    assert!(!contains("", "a"));
    assert!(contains("aaab", "aab"));
    assert!(contains("grüße", "üß"));
}

#[test]
fn starts_with_looks_at_the_front_only() {
    assert!(starts_with("https://host", "https://"));
    assert!(!starts_with(" https://host", "https://"));
    assert!(!starts_with("http", "http://"));
    assert!(starts_with("x", ""));
}

#[test]
fn trim_removes_white_space_at_both_ends() {
    assert_eq!(trim("  a b \r\n"), "a b");
    assert_eq!(trim("\u{a0}\u{3000}x\u{2003}"), "x");
    assert_eq!(trim(" \t\n"), "");
    assert_eq!(trim(""), "");
    assert_eq!(trim("x"), "x");
}

#[test]
fn white_space_is_that_of_every_character() {
    let mut code: u32 = 0;
    while code <= 0x10ffff {
        if let Some(c) = char::from_u32(code) {
            let listed = matches!(c,
                '\u{9}'..='\u{d}' | ' ' | '\u{85}' | '\u{a0}' | '\u{1680}'
                | '\u{2000}'..='\u{200a}' | '\u{2028}' | '\u{2029}' | '\u{202f}' | '\u{205f}'
                | '\u{3000}');
            assert_eq!(c.is_whitespace(), listed);
        }
        code += 1;
    }
}

#[test]
fn blank_is_what_trimming_leaves_nothing_of() {
    for s in ["", " ", "\t \u{2009}", "a", " a ", "\u{200b}"] {
        assert_eq!(is_blank(s), s.trim().is_empty());
    }
}

#[test]
fn lines_end_at_line_feeds() {
    for s in [
        "", "\n", "a", "a\n", "a\nb", "a\r\nb\r\n", "a\rb\n", "a\r", "\r\n", "\n\n", "a\r\r\nb",
        "ä\nö\r\nü",
    ] {
        let expected: Vec<String> = s.lines().map(|l| l.to_string()).collect();
        assert_eq!(lines(s), expected);
    }
    assert_eq!(lines("a\r\nb\r"), vec!["a".to_string(), "b\r".to_string()]);
}

#[test]
fn decimal_numbers() {
    for n in [0u16, 7, 10, 99, 100, 8080, 65535] {
        let mut s = String::from("n=");
        push_decimal(&mut s, n);
        assert_eq!(s, format!("n={}", n));
    }
}

#[test]
fn joined_texts() {
    assert_eq!(joined("a", "b"), "ab");
    assert_eq!(joined("", ""), "");
}

#[test]
fn bytes_are_shown_as_text() {
    assert_eq!(text_of("a\u{fc}\n".as_bytes()), "a\u{fc}\n");
    assert_eq!(text_of(b""), "");
    assert_eq!(text_of(b"a\xffb"), "a\u{fffd}b");
}
