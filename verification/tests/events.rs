use rmcp_proxy::events::{
    EventStream, SseEvent, StreamInput, StreamPhase, EVENTS_PATH, KEEP_ALIVE_SECONDS,
    MESSAGE_PATH, NOTIFICATION_CAPACITY, PING_SECONDS, ROOT_PATH,
};

fn shown(event: Option<SseEvent>) -> Option<(String, String)> {
    event.map(|e| (e.event, e.data))
}

fn event(name: &str, data: &str) -> Option<(String, String)> {
    Some((name.to_string(), data.to_string()))
}

#[test]
fn stream_order() {
    let mut stream = EventStream::new();
    assert_eq!(stream.phase, StreamPhase::Opening);
    assert_eq!(shown(stream.step(StreamInput::Start)), event("endpoint", "/"));
    assert_eq!(stream.phase, StreamPhase::Notifying);
    assert_eq!(
        shown(stream.step(StreamInput::Notification("{\"a\":1}".to_string()))),
        event("notification", "{\"a\":1}")
    );
    assert_eq!(shown(stream.step(StreamInput::Missed)), None);
    assert_eq!(stream.phase, StreamPhase::Notifying);
    assert_eq!(
        shown(stream.step(StreamInput::Notification("b".to_string()))),
        event("notification", "b")
    );
    assert_eq!(shown(stream.step(StreamInput::Closed)), None);
    assert_eq!(stream.phase, StreamPhase::Pinging);
    assert_eq!(shown(stream.step(StreamInput::Tick)), event("ping", "keepalive"));
    assert_eq!(shown(stream.step(StreamInput::Tick)), event("ping", "keepalive"));
    assert_eq!(stream.phase, StreamPhase::Pinging);
}

#[test]
fn stream_settings() {
    assert_eq!((ROOT_PATH, MESSAGE_PATH, EVENTS_PATH), ("/", "/message", "/sse"));
    assert_eq!(NOTIFICATION_CAPACITY, 100);
    assert_eq!(PING_SECONDS, 30);
    assert_eq!(KEEP_ALIVE_SECONDS, 15);
}

#[test]
fn event_names_are_one_line() {
    let mut stream = EventStream::new();
    for input in [
        StreamInput::Start,
        StreamInput::Notification("a\nb\r".to_string()),
        StreamInput::Closed,
        StreamInput::Tick,
    ] {
        if let Some(event) = stream.step(input) {
            assert!(!event.event.contains(['\n', '\r']));
        }
    }
}
