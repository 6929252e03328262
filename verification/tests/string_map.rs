use rmcp_proxy::string_map::StringMap;

#[test]
fn last_value_of_a_key_counts() {
    let mut map = StringMap::new();
    assert_eq!(map.get("a"), None);
    map.insert("a".to_string(), "1".to_string());
    map.insert("b".to_string(), "2".to_string());
    map.insert("a".to_string(), "3".to_string());
    map.insert("".to_string(), "".to_string());
    assert_eq!(map.get("a"), Some("3".to_string()));
    assert_eq!(map.get("b"), Some("2".to_string()));
    assert_eq!(map.get(""), Some("".to_string()));
    assert_eq!(map.get("A"), None);
    assert_eq!(map.to_list().len(), 3);
}
