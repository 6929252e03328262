use rmcp_proxy::json::read_text;
use rmcp_proxy::logging::{LogStreamType, Logger};
use rmcp_proxy::process::{
    exit_message, exit_report, exit_step, log_line, signal_number_to_name, start_message,
    stderr_step, stdout_step, ChildWait, ExitStep, OutputEvent, TerminatingSignal, EXIT_POLL_MILLIS,
};

fn remote() -> Option<Logger> {
    Some(Logger::new(Some("http://logs/in".to_string()), Some("secret".to_string())))
}

fn line(text: &str) -> OutputEvent {
    OutputEvent::Line(text.to_string())
}

#[test]
fn output_is_logged_and_forwarded() {
    let step = stdout_step(&remote(), line("{\"id\":1}")).unwrap();
    assert_eq!(step.forward, b"{\"id\":1}\n".to_vec());
    let log = step.log.unwrap();
    assert_eq!(log.console, "[STDOUT] - {\"id\":1}");
    let body = log.remote.unwrap().body;
    assert_eq!(read_text(&body, "message"), Some("{\"id\":1}".to_string()));
    assert_eq!(read_text(&body, "logType"), Some("mcp_stdout".to_string()));
}

#[test]
fn output_without_service_goes_to_the_console() {
    let log = stdout_step(&None, line("x")).unwrap().log.unwrap();
    assert_eq!(log.console, "[STDOUT] - x");
    assert!(log.remote.is_none());
    let local = Some(Logger::new(None, None));
    assert!(stdout_step(&local, line("x")).unwrap().log.unwrap().remote.is_none());
}

#[test]
fn blank_output_is_forwarded_but_not_logged() {
    for blank in ["", "  ", "\t\u{a0}"] {
        let step = stdout_step(&remote(), line(blank)).unwrap();
        assert!(step.log.is_none());
        assert_eq!(step.forward, format!("{}\n", blank).into_bytes());
        assert!(stderr_step(&remote(), line(blank)).unwrap().log.is_none());
    }
}

#[test]
fn forwarded_bytes_are_utf8() {
    let step = stdout_step(&None, line("grüße \u{1f600}")).unwrap();
    assert_eq!(step.forward, "grüße \u{1f600}\n".as_bytes().to_vec());
}

#[test]
fn output_ends() {
    assert!(stdout_step(&None, OutputEvent::End).is_none());
    assert!(stdout_step(&None, OutputEvent::Failed).is_none());
    assert!(stdout_step(&None, OutputEvent::ReceiverGone).is_none());
    assert!(stderr_step(&None, OutputEvent::End).is_none());
    assert!(stderr_step(&None, OutputEvent::Failed).is_none());
}

#[test]
fn errors_are_logged() {
    let log = stderr_step(&remote(), line(" warn ")).unwrap().log.unwrap();
    assert_eq!(log.console, "[STDERR] -  warn ");
    assert_eq!(read_text(&log.remote.unwrap().body, "logType"), Some("mcp_stderr".to_string()));
}

#[test]
fn log_line_without_logger() {
    let log = log_line(&None, "a", LogStreamType::Stdin);
    assert_eq!(log.console, "[STDIN] - a");
    assert!(log.remote.is_none());
}

#[test]
fn start_is_announced() {
    let args = vec!["-y".to_string(), "a \"b\"".to_string()];
    assert_eq!(
        start_message("npx", &args, "T0"),
        "{\"args\":[\"-y\",\"a \\\"b\\\"\"],\"command\":\"npx\",\"event\":\"process_start\",\"timestamp\":\"T0\"}"
    );
    let message = start_message("npx", &args, "T0");
    assert_eq!(read_text(&message, "event"), Some("process_start".to_string()));
    assert_eq!(read_text(&message, "args"), None);
}

#[test]
fn exit_with_a_code() {
    assert_eq!(
        exit_message(Some(-3), &TerminatingSignal::Unknown, "T0"),
        "{\"event\":\"process_exit\",\"exit_code\":-3,\"exit_type\":\"normal\",\"timestamp\":\"T0\"}"
    );
}

#[test]
fn exit_by_a_signal() {
    let signal = TerminatingSignal::Known { number: 9 };
    assert_eq!(
        exit_message(None, &signal, "T0"),
        "{\"event\":\"process_exit\",\"exit_type\":\"signal\",\"signal\":\"SIGKILL\",\"signal_number\":9,\"timestamp\":\"T0\"}"
    );
    assert_eq!(
        exit_message(None, &TerminatingSignal::Unknown, "T0"),
        "{\"event\":\"process_exit\",\"exit_type\":\"signal\",\"signal\":\"UNKNOWN\",\"timestamp\":\"T0\"}"
    );
    assert_eq!(
        exit_message(None, &TerminatingSignal::Unsupported, "T0"),
        "{\"event\":\"process_exit\",\"exit_type\":\"signal\",\"timestamp\":\"T0\"}"
    );
}

#[test]
fn signals_have_names() {
    assert_eq!(signal_number_to_name(1), "SIGHUP");
    assert_eq!(signal_number_to_name(6), "SIGABRT");
    assert_eq!(signal_number_to_name(7), "SIGBUS");
    assert_eq!(signal_number_to_name(9), "SIGKILL");
    assert_eq!(signal_number_to_name(10), "SIGUSR1");
    assert_eq!(signal_number_to_name(11), "SIGSEGV");
    assert_eq!(signal_number_to_name(15), "SIGTERM");
    assert_eq!(signal_number_to_name(31), "SIGSYS");
    for number in [i32::MIN, -9, 0, 32, 64, i32::MAX] {
        assert_eq!(signal_number_to_name(number), "UNKNOWN");
    }
    let message = exit_message(None, &TerminatingSignal::Known { number: 15 }, "T0");
    assert_eq!(read_text(&message, "signal"), Some("SIGTERM".to_string()));
}

#[test]
fn exit_is_reported_on_the_console_and_through_the_logger() {
    let report = exit_report(&remote(), "{}");
    assert_eq!(report.console, "[CMD] - {}");
    let log = report.log.unwrap();
    assert_eq!(log.console, "[CMD] - {}");
    assert_eq!(read_text(&log.remote.unwrap().body, "logType"), Some("cmd_log".to_string()));
    assert!(exit_report(&None, "{}").log.is_none());
}

#[test]
fn exit_is_asked_for_until_it_comes() {
    assert_eq!(EXIT_POLL_MILLIS, 500);
    assert!(matches!(exit_step(&None, ChildWait::Running), ExitStep::AskAgain));
    assert!(matches!(exit_step(&None, ChildWait::Failed), ExitStep::Stop));
    let wait = ChildWait::Exited { code: Some(0), signal: TerminatingSignal::Unknown };
    match exit_step(&remote(), wait) {
        ExitStep::Report(report) => {
            let message = report.console.strip_prefix("[CMD] - ").unwrap().to_string();
            assert_eq!(read_text(&message, "event"), Some("process_exit".to_string()));
            assert_eq!(read_text(&message, "exit_type"), Some("normal".to_string()));
            assert!(read_text(&message, "timestamp").unwrap().ends_with("+00:00"));
            let body = report.log.unwrap().remote.unwrap().body;
            assert_eq!(read_text(&body, "message"), Some(message));
        }
        _ => panic!("the end is reported"),
    }
}
