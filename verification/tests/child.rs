use rmcp_proxy::child::{
    FlushTarget, LoggingChildProcess, ReadEnd, ReadStart, ReceiverPoll, WriteTarget,
};
use rmcp_proxy::json::read_text;
use rmcp_proxy::logging::Logger;

fn ready(end: ReadEnd) -> Vec<u8> {
    match end {
        ReadEnd::Ready(bytes) => bytes,
        ReadEnd::Pending => panic!("the read is not over"),
    }
}

fn chunk(text: &str) -> ReceiverPoll {
    ReceiverPoll::Chunk(text.as_bytes().to_vec())
}

#[test]
fn reads_take_what_fits_and_keep_the_rest() {
    let mut child = LoggingChildProcess::new(true, None);
    assert_eq!(child.read_buffered(4), Vec::<u8>::new());
    assert_eq!(ready(child.read_received(4, chunk("hello\n"))), b"hell".to_vec());
    assert_eq!(child.read_buffered(1), b"o".to_vec());
    assert_eq!(child.read_buffered(100), b"\n".to_vec());
    assert_eq!(child.read_buffered(100), Vec::<u8>::new());
}

#[test]
fn reads_ask_only_where_nothing_fits() {
    let mut child = LoggingChildProcess::new(true, None);
    assert!(matches!(child.read_start(4), ReadStart::Ask));
    assert_eq!(ready(child.read_received(4, chunk("hello"))), b"hell".to_vec());
    assert!(matches!(child.read_start(0), ReadStart::Ask));
    match child.read_start(4) {
        ReadStart::Done(bytes) => assert_eq!(bytes, b"o".to_vec()),
        ReadStart::Ask => panic!("a byte is left"),
    }
    assert!(matches!(child.read_start(4), ReadStart::Ask));
}

#[test]
fn reads_without_room_get_nothing_and_lose_nothing() {
    let mut child = LoggingChildProcess::new(true, None);
    assert_eq!(ready(child.read_received(0, chunk("ab"))), Vec::<u8>::new());
    assert_eq!(child.read_buffered(0), Vec::<u8>::new());
    assert_eq!(ready(child.read_received(3, chunk("cd"))), b"abc".to_vec());
    assert_eq!(child.read_buffered(3), b"d".to_vec());
}

#[test]
fn reads_end_or_wait() {
    let mut child = LoggingChildProcess::new(true, None);
    assert!(matches!(child.read_received(8, ReceiverPoll::Pending), ReadEnd::Pending));
    assert_eq!(ready(child.read_received(8, ReceiverPoll::Closed)), Vec::<u8>::new());
}

#[test]
fn output_is_delivered_in_order() {
    let text = "one\ntwo\n\nthree and more\n";
    for size in 1..9usize {
        for room in 1..9usize {
            let mut child = LoggingChildProcess::new(true, None);
            let mut chunks = text.as_bytes().chunks(size);
            let mut got: Vec<u8> = Vec::new();
            loop {
                let mut bytes = child.read_buffered(room);
                if bytes.is_empty() {
                    let poll = match chunks.next() {
                        Some(c) => ReceiverPoll::Chunk(c.to_vec()),
                        None => ReceiverPoll::Closed,
                    };
                    bytes = ready(child.read_received(room, poll));
                }
                if bytes.is_empty() {
                    break;
                }
                assert!(bytes.len() <= room);
                got.extend(bytes);
            }
            assert_eq!(got, text.as_bytes().to_vec());
        }
    }
}

#[test]
fn writes_are_logged_trimmed_and_passed_on() {
    let logger = Logger::new(Some("http://logs/in".to_string()), Some("secret".to_string()));
    let child = LoggingChildProcess::new(true, Some(logger));
    let step = child.write(b" {\"id\":1}\n");
    assert!(matches!(step.target, WriteTarget::Stdin));
    let log = step.log.unwrap();
    assert_eq!(log.console, "[STDIN] - {\"id\":1}");
    let body = log.remote.unwrap().body;
    assert_eq!(read_text(&body, "message"), Some("{\"id\":1}".to_string()));
    assert_eq!(read_text(&body, "logType"), Some("mcp_stdin".to_string()));
}

#[test]
fn blank_writes_are_not_logged() {
    let child = LoggingChildProcess::new(true, None);
    assert!(child.write_text("").log.is_none());
    assert_eq!(child.write_text(" a\n").log.unwrap().console, "[STDIN] - a");
    assert!(child.write(b"").log.is_none());
    assert!(child.write(b" \r\n").log.is_none());
    assert!(matches!(child.write(b"\n").target, WriteTarget::Stdin));
}

#[test]
fn writes_that_are_not_utf8_are_logged_with_replacements() {
    let child = LoggingChildProcess::new(true, None);
    assert_eq!(child.write(b"a\xffb").log.unwrap().console, "[STDIN] - a\u{fffd}b");
    assert_eq!(child.write("ü".as_bytes()).log.unwrap().console, "[STDIN] - ü");
}

#[test]
fn closed_input_breaks_the_pipe() {
    let child = LoggingChildProcess::new(false, None);
    let step = child.write(b"x");
    assert_eq!(step.log.unwrap().console, "[STDIN] - x");
    match step.target {
        WriteTarget::BrokenPipe(message) => assert_eq!(message, "stdin not available"),
        WriteTarget::Stdin => panic!("the input is closed"),
    }
    assert!(matches!(child.flush(), FlushTarget::Done));
    assert!(matches!(child.shutdown(), FlushTarget::Done));
}

#[test]
fn open_input_is_flushed_and_shut_down() {
    let child = LoggingChildProcess::new(true, None);
    assert!(matches!(child.flush(), FlushTarget::Stdin));
    assert!(matches!(child.shutdown(), FlushTarget::Stdin));
}
