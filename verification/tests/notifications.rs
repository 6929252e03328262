use rmcp_proxy::capture::NotificationCapture;
use rmcp_proxy::child::{LoggingChildProcess, ReadEnd, ReadStart, ReceiverPoll};
use rmcp_proxy::notifications::{
    captured_notifications, is_notification, is_notification_method, notifications_in,
};
use rmcp_proxy::process::{stdout_step, OutputEvent};

const PROGRESS: &str = "{\"jsonrpc\":\"2.0\",\"method\":\"notifications/progress\"}";
const CHANGED: &str = "{\"method\":\"notifications/tools/list_changed\",\"params\":{\"a\":\"\u{fc}\"}}";
const REQUEST: &str = "{\"jsonrpc\":\"2.0\",\"id\":1,\"method\":\"tools/list\"}";

#[test]
fn methods_of_notifications() {
    assert!(is_notification_method(Some("notifications/progress")));
    assert!(is_notification_method(Some("notifications/")));
    assert!(!is_notification_method(Some("notifications")));
    assert!(!is_notification_method(Some("tools/notifications/")));
    assert!(!is_notification_method(Some("")));
    assert!(!is_notification_method(None));
}

#[test]
fn lines_that_are_notifications() {
    assert!(is_notification(PROGRESS));
    assert!(is_notification(CHANGED));
    assert!(!is_notification(REQUEST));
    assert!(!is_notification("{\"method\":7}"));
    assert!(!is_notification("{\"params\":{\"method\":\"notifications/x\"}}"));
    assert!(!is_notification("[{\"method\":\"notifications/x\"}]"));
    assert!(!is_notification("notifications/x"));
    assert!(!is_notification(""));
}

#[test]
fn notifications_are_captured_in_order() {
    let data = format!("{}\n{}\r\n\nnoise\n{}", PROGRESS, REQUEST, CHANGED);
    assert_eq!(
        captured_notifications(data.as_bytes()),
        vec![PROGRESS.to_string(), CHANGED.to_string()]
    );
    assert_eq!(notifications_in(&data), captured_notifications(data.as_bytes()));
    assert_eq!(captured_notifications(b""), Vec::<String>::new());
    assert_eq!(captured_notifications(REQUEST.as_bytes()), Vec::<String>::new());
}

#[test]
fn notifications_that_are_not_utf8_carry_replacements() {
    let data = b"{\"method\":\"notifications/\xff\"}\n";
    assert_eq!(
        captured_notifications(data),
        vec!["{\"method\":\"notifications/\u{fffd}\"}".to_string()]
    );
}

#[test]
fn notifications_of_parts() {
    let a = format!("{}\n{}\n", PROGRESS, REQUEST);
    let b = format!("{}\n", CHANGED);
    let mut parts = captured_notifications(a.as_bytes());
    parts.extend(captured_notifications(b.as_bytes()));
    assert_eq!(captured_notifications(format!("{}{}", a, b).as_bytes()), parts);
}

fn captured_in_reads(data: &[u8], size: usize) -> Vec<String> {
    let mut capture = NotificationCapture::new();
    let mut captured: Vec<String> = Vec::new();
    for read in data.chunks(size) {
        captured.extend(capture.feed(read));
    }
    captured
}

#[test]
fn notifications_that_reads_cut_are_captured_once() {
    let line = "{\"method\":\"notifications/x\"}";
    let data = format!("{}\n", line);
    let (first, second) = data.as_bytes().split_at(10);
    let mut capture = NotificationCapture::new();
    assert_eq!(capture.feed(first), Vec::<String>::new());
    assert_eq!(capture.feed(second), vec![line.to_string()]);
    assert_eq!(capture.feed(b""), Vec::<String>::new());
    assert_eq!(capture.feed(data.as_bytes()), vec![line.to_string()]);
}

#[test]
fn notifications_do_not_wait_for_their_line_feed() {
    let mut capture = NotificationCapture::new();
    assert_eq!(capture.feed(PROGRESS.as_bytes()), vec![PROGRESS.to_string()]);
    assert_eq!(capture.feed(b"\n"), Vec::<String>::new());
    assert_eq!(capture.feed(REQUEST.as_bytes()), Vec::<String>::new());
    assert_eq!(capture.feed(b"\n"), Vec::<String>::new());
    let both = format!("{}\n{}", PROGRESS, CHANGED);
    assert_eq!(capture.feed(both.as_bytes()), vec![PROGRESS.to_string(), CHANGED.to_string()]);
}

#[test]
fn capture_does_not_depend_on_the_reads() {
    let data = format!("{}\n{}\n\nnoise\n{}\n{}\n", PROGRESS, REQUEST, CHANGED, PROGRESS);
    for size in 1..data.len() + 1 {
        assert_eq!(
            captured_in_reads(data.as_bytes(), size),
            vec![PROGRESS.to_string(), CHANGED.to_string(), PROGRESS.to_string()]
        );
    }
}

#[test]
fn notifications_with_blanks_behind_may_be_cut_elsewhere() {
    let line = format!("{}  ", PROGRESS);
    let data = format!("{}\n{}\n", line, REQUEST);
    let cut = |n: usize| {
        let (first, second) = data.as_bytes().split_at(n);
        let mut capture = NotificationCapture::new();
        let mut captured = capture.feed(first);
        captured.extend(capture.feed(second));
        captured
    };
    for n in 0..data.len() {
        let early = n == PROGRESS.len() || n == PROGRESS.len() + 1;
        assert_eq!(cut(n) == vec![line.clone()], !early);
    }
}

#[test]
fn carriage_returns_belong_to_the_ending() {
    let data = format!("{}\r\n{}\r\n", PROGRESS, CHANGED);
    let cut = |n: usize| {
        let (first, second) = data.as_bytes().split_at(n);
        let mut capture = NotificationCapture::new();
        let mut captured = capture.feed(first);
        captured.extend(capture.feed(second));
        captured
    };
    let early = [PROGRESS.len() + 1, data.len() - 1];
    for n in 0..data.len() {
        let whole = vec![PROGRESS.to_string(), CHANGED.to_string()];
        assert_eq!(cut(n) == whole, !early.contains(&n));
    }
}

#[test]
fn reads_may_cut_a_character() {
    let data = format!("{}\n", CHANGED);
    let cut = data.find('\u{fc}').unwrap() + 1;
    let (first, second) = data.as_bytes().split_at(cut);
    let mut capture = NotificationCapture::new();
    assert_eq!(capture.feed(first), Vec::<String>::new());
    assert_eq!(capture.feed(second), vec![CHANGED.to_string()]);
}

#[test]
fn reader_sees_the_lines() {
    for room in [1usize, 7, 64, 1000] {
        let mut child = LoggingChildProcess::new(true, None);
        let mut capture = NotificationCapture::new();
        let mut read: Vec<u8> = Vec::new();
        let mut captured: Vec<String> = Vec::new();
        for line in [PROGRESS, "  ", REQUEST, CHANGED] {
            let step = stdout_step(&None, OutputEvent::Line(line.to_string())).unwrap();
            assert!(!step.forward.is_empty());
            match child.read_received(room, ReceiverPoll::Chunk(step.forward)) {
                ReadEnd::Ready(bytes) => {
                    captured.extend(capture.feed(&bytes));
                    read.extend(bytes);
                }
                ReadEnd::Pending => panic!("a chunk was there"),
            }
            while let ReadStart::Done(bytes) = child.read_start(room) {
                captured.extend(capture.feed(&bytes));
                read.extend(bytes);
            }
        }
        let text = String::from_utf8(read).unwrap();
        assert_eq!(text.lines().collect::<Vec<&str>>(), vec![PROGRESS, "  ", REQUEST, CHANGED]);
        assert_eq!(captured, vec![PROGRESS.to_string(), CHANGED.to_string()]);
    }
}
