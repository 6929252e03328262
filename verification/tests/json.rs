use rmcp_proxy::json::read_text;

#[test]
fn members_that_are_texts_are_read() {
    assert_eq!(read_text("{\"a\":\"b\"}", "a"), Some("b".to_string()));
    assert_eq!(read_text(" {\"a\" : \"\\u00e4\\n\"} ", "a"), Some("\u{e4}\n".to_string()));
    assert_eq!(read_text("{\"a\":\"b\",\"a\":\"c\"}", "a"), Some("c".to_string()));
}

#[test]
fn other_members_are_not() {
    assert_eq!(read_text("{\"a\":\"b\"}", "b"), None);
    assert_eq!(read_text("{\"a\":1}", "a"), None);
    assert_eq!(read_text("{\"a\":null}", "a"), None);
    assert_eq!(read_text("{\"a\":{\"a\":\"b\"}}", "a"), None);
    assert_eq!(read_text("[\"a\"]", "a"), None);
    assert_eq!(read_text("\"a\"", "a"), None);
}

#[test]
fn text_that_is_not_json_has_no_members() {
    assert_eq!(read_text("", "a"), None);
    assert_eq!(read_text("{\"a\":\"b\"", "a"), None);
    assert_eq!(read_text("{\"a\":\"b\"} x", "a"), None);
    assert_eq!(read_text("a", "a"), None);
}
