use axum::http::{HeaderMap, HeaderName, HeaderValue};
use rmcp_proxy::headers::{
    add_protocol_version, add_stream_headers, complete_accept, negotiate_accept, MAX_NAMES,
};

const BOTH: &str = "application/json, text/event-stream";

fn with_accept(value: &str) -> HeaderMap {
    let mut headers = HeaderMap::new();
    headers.insert("accept", HeaderValue::from_str(value).unwrap());
    headers.insert("host", HeaderValue::from_static("localhost"));
    headers
}

fn crowded(names: usize) -> HeaderMap {
    let mut headers = HeaderMap::new();
    let mut i: usize = 0;
    while i < names {
        let name = HeaderName::from_bytes(format!("x-{}", i).as_bytes()).unwrap();
        headers.insert(name, HeaderValue::from_static("v"));
        i += 1;
    }
    headers
}

fn fill(headers: &mut HeaderMap) -> usize {
    let mut n: usize = 0;
    loop {
        let name = HeaderName::from_bytes(format!("x-{}", n).as_bytes()).unwrap();
        if headers.try_insert(name, HeaderValue::from_static("1")).is_err() {
            return n;
        }
        n += 1;
    }
}

#[test]
fn missing_accept_names_both() {
    assert_eq!(negotiate_accept(None), Some(BOTH.to_string()));
    let mut headers = HeaderMap::new();
    assert!(complete_accept(&mut headers));
    assert_eq!(headers.get("accept").unwrap(), BOTH);
    assert_eq!(headers.len(), 1);
}

#[test]
fn accept_of_neither_is_replaced() {
    assert_eq!(negotiate_accept(Some("*/*")), Some(BOTH.to_string()));
    assert_eq!(negotiate_accept(Some("")), Some(BOTH.to_string()));
    let mut headers = with_accept("text/html");
    assert!(complete_accept(&mut headers));
    assert_eq!(headers.get("accept").unwrap(), BOTH);
    assert_eq!(headers.get("host").unwrap(), "localhost");
}

#[test]
fn accept_of_one_is_extended() {
    assert_eq!(
        negotiate_accept(Some("application/json")),
        Some("application/json, text/event-stream".to_string())
    );
    assert_eq!(
        negotiate_accept(Some("text/event-stream;q=0.5")),
        Some("text/event-stream;q=0.5, application/json".to_string())
    );
    let mut headers = with_accept("text/event-stream");
    assert!(complete_accept(&mut headers));
    assert_eq!(headers.get("accept").unwrap(), "text/event-stream, application/json");
}

#[test]
fn accept_of_both_stays() {
    let said = "text/event-stream, application/json";
    assert_eq!(negotiate_accept(Some(said)), None);
    let mut headers = with_accept(said);
    assert!(complete_accept(&mut headers));
    assert_eq!(headers.get("accept").unwrap(), said);
}

#[test]
fn accept_is_completed_once() {
    for said in ["*/*", "application/json", "text/event-stream", BOTH, "\t"] {
        let mut once = with_accept(said);
        assert!(complete_accept(&mut once));
        let mut twice = once.clone();
        assert!(complete_accept(&mut twice));
        assert_eq!(once, twice);
    }
}

#[test]
fn unreadable_accept_is_replaced() {
    let mut headers = HeaderMap::new();
    headers.insert("accept", HeaderValue::from_bytes(b"application/json\xff").unwrap());
    assert!(complete_accept(&mut headers));
    assert_eq!(headers.get("accept").unwrap(), BOTH);
}

#[test]
fn only_the_first_accept_counts() {
    let mut headers = HeaderMap::new();
    headers.append("accept", HeaderValue::from_static("application/json"));
    headers.append("accept", HeaderValue::from_static("text/event-stream"));
    assert!(complete_accept(&mut headers));
    let values: Vec<&HeaderValue> = headers.get_all("accept").iter().collect();
    assert_eq!(values, vec!["application/json, text/event-stream"]);
}

#[test]
fn responses_name_the_version() {
    let mut headers = HeaderMap::new();
    headers.append("mcp-protocol-version", HeaderValue::from_static("old"));
    headers.append("mcp-protocol-version", HeaderValue::from_static("older"));
    assert!(add_protocol_version(&mut headers));
    let values: Vec<&HeaderValue> = headers.get_all("mcp-protocol-version").iter().collect();
    assert_eq!(values, vec!["2025-06-18"]);
}

#[test]
fn streams_are_labelled() {
    let mut headers = HeaderMap::new();
    headers.insert("content-type", HeaderValue::from_static("text/plain"));
    assert!(add_stream_headers(&mut headers));
    assert_eq!(headers.len(), 4);
    assert_eq!(headers.get("mcp-protocol-version").unwrap(), "2025-06-18");
    assert_eq!(headers.get("content-type").unwrap(), "text/event-stream");
    assert_eq!(headers.get("cache-control").unwrap(), "no-cache");
    assert_eq!(headers.get("connection").unwrap(), "keep-alive");
    let labelled = headers.clone();
    assert!(add_protocol_version(&mut headers));
    assert_eq!(headers, labelled);
}

#[test]
fn crowded_headers_take_what_they_can() {
    for names in [0, 10, MAX_NAMES - 4] {
        let mut headers = crowded(names);
        assert!(complete_accept(&mut headers));
        assert_eq!(headers.get("accept").unwrap(), BOTH);
        headers.remove("accept");
        assert!(add_stream_headers(&mut headers));
        assert_eq!(headers.keys_len(), names + 4);
    }
    let mut headers = crowded(3 * MAX_NAMES);
    assert!(complete_accept(&mut headers));
    assert_eq!(headers.get("accept").unwrap(), BOTH);
    assert!(add_protocol_version(&mut headers));
    assert_eq!(headers.get("mcp-protocol-version").unwrap(), "2025-06-18");
    assert_eq!(headers.keys_len(), 3 * MAX_NAMES + 2);
}

#[test]
fn full_headers_are_left_alone() {
    let mut headers = HeaderMap::new();
    assert!(fill(&mut headers) >= MAX_NAMES);
    let before = headers.clone();
    assert!(!complete_accept(&mut headers));
    assert!(!add_protocol_version(&mut headers));
    assert!(!add_stream_headers(&mut headers));
    assert_eq!(headers, before);
}

#[test]
fn full_headers_that_accept_both_need_nothing() {
    let mut headers = HeaderMap::new();
    headers.insert("accept", HeaderValue::from_static(BOTH));
    fill(&mut headers);
    let before = headers.clone();
    assert!(complete_accept(&mut headers));
    assert_eq!(headers, before);
}
