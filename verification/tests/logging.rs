use rmcp_proxy::json::read_text;
use rmcp_proxy::logging::{console_line, refusal_text, Delivery, LogStreamType, Logger};

const ALL: [LogStreamType; 4] = [
    LogStreamType::Stdout,
    LogStreamType::Stderr,
    LogStreamType::Stdin,
    LogStreamType::Command,
];

fn remote() -> Logger {
    Logger::new(Some("http://logs/in".to_string()), Some("secret".to_string()))
}

#[test]
fn stream_names() {
    assert_eq!(LogStreamType::Stdout.as_log_type(), "mcp_stdout");
    assert_eq!(LogStreamType::Stderr.as_log_type(), "mcp_stderr");
    assert_eq!(LogStreamType::Stdin.as_log_type(), "mcp_stdin");
    assert_eq!(LogStreamType::Command.as_log_type(), "cmd_log");
    assert_eq!(LogStreamType::Stdout.as_display(), "[STDOUT]");
    assert_eq!(LogStreamType::Stderr.as_display(), "[STDERR]");
    assert_eq!(LogStreamType::Stdin.as_display(), "[STDIN]");
    assert_eq!(LogStreamType::Command.as_display(), "[CMD]");
}

#[test]
fn streams_are_told_apart() {
    for a in ALL {
        for b in ALL {
            assert_eq!(a == b, a.as_display() == b.as_display());
            assert_eq!(a == b, a.as_log_type() == b.as_log_type());
        }
    }
}

#[test]
fn console_lines() {
    assert_eq!(console_line(LogStreamType::Stdin, "{}"), "[STDIN] - {}");
    assert_eq!(console_line(LogStreamType::Command, ""), "[CMD] - ");
}

#[test]
fn remote_needs_url_and_token() {
    let url = || Some("http://logs/in".to_string());
    let token = || Some("secret".to_string());
    assert!(Logger::new(url(), token()).log("x", LogStreamType::Stdout).remote.is_some());
    assert!(Logger::new(url(), None).log("x", LogStreamType::Stdout).remote.is_none());
    assert!(Logger::new(None, token()).log("x", LogStreamType::Stdout).remote.is_none());
    assert!(Logger::new(None, None).log("x", LogStreamType::Stdout).remote.is_none());
    assert!(remote().clone().log("x", LogStreamType::Stdout).remote.is_some());
    assert_eq!(Logger::new(None, None).log("x", LogStreamType::Stdout).console, "[STDOUT] - x");
}

#[test]
fn request_of_a_line() {
    let action = remote().log_at("hi \"you\"", LogStreamType::Stderr, "T0");
    assert_eq!(action.console, "[STDERR] - hi \"you\"");
    let request = action.remote.unwrap();
    assert_eq!(request.url, "http://logs/in");
    assert_eq!(
        request.headers,
        vec![
            ("x-api-key".to_string(), "secret".to_string()),
            ("content-type".to_string(), "application/json".to_string()),
        ]
    );
    assert_eq!(
        request.body,
        "{\"level\":\"info\",\"logType\":\"mcp_stderr\",\"message\":\"hi \\\"you\\\"\",\"timestamp\":\"T0\"}"
    );
}

#[test]
fn request_reads_back() {
    for line in ["plain", "quote \" slash \\ tab \t", "\u{0}\u{1f}\n\r", "grüße \u{1f600}", ""] {
        for stream in ALL {
            let body = remote().log_at(line, stream, "2025-01-01T00:00:00+00:00").remote.unwrap().body;
            assert_eq!(read_text(&body, "message"), Some(line.to_string()));
            assert_eq!(read_text(&body, "logType"), Some(stream.as_log_type().to_string()));
            assert_eq!(read_text(&body, "level"), Some("info".to_string()));
            assert_eq!(
                read_text(&body, "timestamp"),
                Some("2025-01-01T00:00:00+00:00".to_string())
            );
        }
    }
}

#[test]
fn lines_are_stamped_with_the_time() {
    let before = chrono::Utc::now();
    let body = remote().log("now", LogStreamType::Stdin).remote.unwrap().body;
    let after = chrono::Utc::now();
    let stamp = read_text(&body, "timestamp").unwrap();
    let pattern: String =
        stamp.chars().map(|c| if c.is_ascii_digit() { '0' } else { c }).collect();
    let (date_and_time, fraction) = pattern.strip_suffix("+00:00").unwrap().split_at(19);
    assert_eq!(date_and_time, "0000-00-00T00:00:00");
    assert!(["", ".000", ".000000", ".000000000"].contains(&fraction));
    let time = chrono::DateTime::parse_from_rfc3339(&stamp).unwrap();
    assert!(before <= time && time <= after);
}

#[test]
fn deliveries_are_reported() {
    assert_eq!(
        refusal_text("418 I'm a teapot"),
        "Failed to send log to remote URL: HTTP 418 I'm a teapot"
    );
    assert_eq!(Delivery::Answered(200).report(), None);
    assert_eq!(Delivery::Answered(204).report(), None);
    assert_eq!(Delivery::Answered(299).report(), None);
    assert_eq!(
        Delivery::Answered(404).report(),
        Some("Failed to send log to remote URL: HTTP 404 Not Found".to_string())
    );
    assert_eq!(
        Delivery::Answered(199).report(),
        Some("Failed to send log to remote URL: HTTP 199 <unknown status code>".to_string())
    );
    assert_eq!(
        Delivery::Answered(300).report(),
        Some("Failed to send log to remote URL: HTTP 300 Multiple Choices".to_string())
    );
    assert_eq!(
        Delivery::Failed("timed out".to_string()).report(),
        Some("Error sending log to remote URL: timed out".to_string())
    );
}
