//! The child process that runs the stdio server: what is logged of its input and output, which
//! bytes pass on, and how its end is reported.

use crate::clock::{utc_now, utc_stamp};
use crate::json::{
    json_text, new_object, no_members, object_text, parsed_texts, plain_members, put, text_members,
    text_under, Member, MemberView,
};
use crate::logging::{
    console_line, console_text, law_console_shows_the_line, law_logged_line_reads_back, LogAction,
    LogStreamType, LogTarget, Logger,
};
use crate::notifications::lemma_encode_concat;
use crate::text::{blank, is_blank, law_text_is_shown, shown_text, views, white_space};
use vstd::prelude::*;
use vstd::utf8::*;

verus! {

/// The service that an optional logger reports to.
pub open spec fn target_of(logger: Option<Logger>) -> Option<LogTarget> {
    match logger {
        Some(logger) => logger@,
        None => None,
    }
}

/// Logs a line to the console, and through the logger where there is one.
pub fn log_line(logger: &Option<Logger>, line: &str, stream: LogStreamType) -> (r: LogAction)
    ensures
        r.logs(target_of(*logger), stream, line@),
{
    match logger {
        Some(logger) => logger.log(line, stream),
        None => LogAction { console: console_line(stream, line), remote: None },
    }
}

/// Whether `log` is what becomes of a line of the child: nothing of a blank line.
pub open spec fn logs_line(
    log: Option<LogAction>,
    logger: Option<Logger>,
    stream: LogStreamType,
    line: Seq<char>,
) -> bool {
    match log {
        Some(action) => !blank(line) && action.logs(target_of(logger), stream, line),
        None => blank(line),
    }
}

fn log_unless_blank(logger: &Option<Logger>, line: &str, stream: LogStreamType) -> (r: Option<
    LogAction,
>)
    ensures
        logs_line(r, *logger, stream, line@),
{
    if is_blank(line) {
        None
    } else {
        Some(log_line(logger, line, stream))
    }
}

/// What reading the output of the child brought: a line, its end, a failure, or that nobody takes
/// the lines any more.
pub enum OutputEvent {
    Line(String),
    End,
    Failed,
    ReceiverGone,
}

/// What becomes of a line of standard output: it is logged unless it is blank, and its bytes pass
/// on to the reader.
pub struct StdoutStep {
    pub log: Option<LogAction>,
    pub forward: Vec<u8>,
}

/// The bytes that pass on for a line: the line and a line feed.
pub open spec fn forwarded(line: Seq<char>) -> Seq<u8> {
    encode_utf8(line.push('\n'))
}

/// Takes the next event of standard output. `None` ends the reading.
pub fn stdout_step(logger: &Option<Logger>, event: OutputEvent) -> (r: Option<StdoutStep>)
    ensures
        match (event, r) {
            (OutputEvent::Line(line), Some(step)) => {
                &&& logs_line(step.log, *logger, LogStreamType::Stdout, line@)
                &&& step.forward@ == forwarded(line@)
            },
            (OutputEvent::Line(_), None) => false,
            (_, r) => r is None,
        },
{
    match event {
        OutputEvent::Line(line) => {
            let log = log_unless_blank(logger, line.as_str(), LogStreamType::Stdout);
            let mut line_with_newline = line;
            line_with_newline.push('\n');
            Some(StdoutStep { log, forward: line_with_newline.into_bytes() })
        },
        _ => None,
    }
}

/// What becomes of a line of standard error: it is logged unless it is blank.
pub struct StderrStep {
    pub log: Option<LogAction>,
}

/// Takes the next event of standard error. `None` ends the reading.
pub fn stderr_step(logger: &Option<Logger>, event: OutputEvent) -> (r: Option<StderrStep>)
    ensures
        match (event, r) {
            (OutputEvent::Line(line), Some(step)) => logs_line(
                step.log,
                *logger,
                LogStreamType::Stderr,
                line@,
            ),
            (OutputEvent::Line(_), None) => false,
            (_, r) => r is None,
        },
{
    match event {
        OutputEvent::Line(line) => Some(
            StderrStep { log: log_unless_blank(logger, line.as_str(), LogStreamType::Stderr) },
        ),
        _ => None,
    }
}

/// The members of the record of a child that is started.
pub open spec fn start_record(
    command: Seq<char>,
    args: Seq<Seq<char>>,
    timestamp: Seq<char>,
) -> Map<Seq<char>, MemberView> {
    no_members().insert("event"@, MemberView::Text("process_start"@)).insert(
        "command"@,
        MemberView::Text(command),
    ).insert("args"@, MemberView::List(args)).insert("timestamp"@, MemberView::Text(timestamp))
}

/// A copy of a list of texts.
pub fn copy_list(list: &Vec<String>) -> (r: Vec<String>)
    ensures
        views(r@) == views(list@),
{
    let mut r: Vec<String> = Vec::new();
    let mut i: usize = 0;
    while i < list.len()
        invariant
            i <= list@.len(),
            r@ == list@.take(i as int),
        decreases list@.len() - i,
    {
        r.push(list[i].clone());
        i = i + 1;
    }
    assert(list@.take(i as int) == list@);
    r
}

/// The message that announces a child that is started.
pub fn start_message(command: &str, args: &Vec<String>, timestamp: &str) -> (r: String)
    ensures
        r@ == json_text(start_record(command@, views(args@), timestamp@)),
        parsed_texts(r@) == Some(text_members(start_record(command@, views(args@), timestamp@))),
{
    proof {
        reveal_strlit("event");
        reveal_strlit("command");
        reveal_strlit("args");
        reveal_strlit("timestamp");
        assert(plain_members(start_record(command@, views(args@), timestamp@)));
    }
    let mut record = new_object();
    put(&mut record, "event", Member::Text("process_start".to_owned()));
    put(&mut record, "command", Member::Text(command.to_owned()));
    put(&mut record, "args", Member::List(copy_list(args)));
    put(&mut record, "timestamp", Member::Text(timestamp.to_owned()));
    object_text(record)
}

/// The name of a signal, by its number on Linux.
pub open spec fn signal_name(number: i32) -> Seq<char> {
    match number {
        1 => "SIGHUP"@,
        2 => "SIGINT"@,
        3 => "SIGQUIT"@,
        4 => "SIGILL"@,
        5 => "SIGTRAP"@,
        6 => "SIGABRT"@,
        7 => "SIGBUS"@,
        8 => "SIGFPE"@,
        9 => "SIGKILL"@,
        10 => "SIGUSR1"@,
        11 => "SIGSEGV"@,
        12 => "SIGUSR2"@,
        13 => "SIGPIPE"@,
        14 => "SIGALRM"@,
        15 => "SIGTERM"@,
        16 => "SIGSTKFLT"@,
        17 => "SIGCHLD"@,
        18 => "SIGCONT"@,
        19 => "SIGSTOP"@,
        20 => "SIGTSTP"@,
        21 => "SIGTTIN"@,
        22 => "SIGTTOU"@,
        23 => "SIGURG"@,
        24 => "SIGXCPU"@,
        25 => "SIGXFSZ"@,
        26 => "SIGVTALRM"@,
        27 => "SIGPROF"@,
        28 => "SIGWINCH"@,
        29 => "SIGIO"@,
        30 => "SIGPWR"@,
        31 => "SIGSYS"@,
        _ => "UNKNOWN"@,
    }
}

/// The name of a signal.
pub fn signal_number_to_name(number: i32) -> (r: &'static str)
    ensures
        r@ == signal_name(number),
{
    match number {
        1 => "SIGHUP",
        2 => "SIGINT",
        3 => "SIGQUIT",
        4 => "SIGILL",
        5 => "SIGTRAP",
        6 => "SIGABRT",
        7 => "SIGBUS",
        8 => "SIGFPE",
        9 => "SIGKILL",
        10 => "SIGUSR1",
        11 => "SIGSEGV",
        12 => "SIGUSR2",
        13 => "SIGPIPE",
        14 => "SIGALRM",
        15 => "SIGTERM",
        16 => "SIGSTKFLT",
        17 => "SIGCHLD",
        18 => "SIGCONT",
        19 => "SIGSTOP",
        20 => "SIGTSTP",
        21 => "SIGTTIN",
        22 => "SIGTTOU",
        23 => "SIGURG",
        24 => "SIGXCPU",
        25 => "SIGXFSZ",
        26 => "SIGVTALRM",
        27 => "SIGPROF",
        28 => "SIGWINCH",
        29 => "SIGIO",
        30 => "SIGPWR",
        31 => "SIGSYS",
        _ => "UNKNOWN",
    }
}

/// The signal that ended a child: one with a number, one that the system does not tell, or none
/// because the system has no signals.
pub enum TerminatingSignal {
    Known { number: i32 },
    Unknown,
    Unsupported,
}

/// The members of the record of a child that has ended, with an exit code or by a signal.
pub open spec fn exit_record(
    code: Option<i32>,
    signal: TerminatingSignal,
    timestamp: Seq<char>,
) -> Map<Seq<char>, MemberView> {
    let record = no_members().insert("event"@, MemberView::Text("process_exit"@)).insert(
        "timestamp"@,
        MemberView::Text(timestamp),
    );
    match code {
        Some(code) => record.insert("exit_type"@, MemberView::Text("normal"@)).insert(
            "exit_code"@,
            MemberView::Number(code as int),
        ),
        None => {
            let record = record.insert("exit_type"@, MemberView::Text("signal"@));
            match signal {
                TerminatingSignal::Known { number } => record.insert(
                    "signal"@,
                    MemberView::Text(signal_name(number)),
                ).insert("signal_number"@, MemberView::Number(number as int)),
                TerminatingSignal::Unknown => record.insert(
                    "signal"@,
                    MemberView::Text("UNKNOWN"@),
                ),
                TerminatingSignal::Unsupported => record,
            }
        },
    }
}

/// The message that reports a child that has ended.
pub fn exit_message(code: Option<i32>, signal: &TerminatingSignal, timestamp: &str) -> (r: String)
    ensures
        r@ == json_text(exit_record(code, *signal, timestamp@)),
        parsed_texts(r@) == Some(text_members(exit_record(code, *signal, timestamp@))),
{
    proof {
        reveal_strlit("event");
        reveal_strlit("timestamp");
        reveal_strlit("exit_type");
        reveal_strlit("exit_code");
        reveal_strlit("signal");
        reveal_strlit("signal_number");
        assert(plain_members(exit_record(code, *signal, timestamp@)));
    }
    let mut record = new_object();
    put(&mut record, "event", Member::Text("process_exit".to_owned()));
    put(&mut record, "timestamp", Member::Text(timestamp.to_owned()));
    match code {
        Some(code) => {
            put(&mut record, "exit_type", Member::Text("normal".to_owned()));
            put(&mut record, "exit_code", Member::Number(code));
        },
        None => {
            put(&mut record, "exit_type", Member::Text("signal".to_owned()));
            match signal {
                TerminatingSignal::Known { number } => {
                    let name = signal_number_to_name(*number);
                    put(&mut record, "signal", Member::Text(name.to_owned()));
                    put(&mut record, "signal_number", Member::Number(*number));
                },
                TerminatingSignal::Unknown => {
                    put(&mut record, "signal", Member::Text("UNKNOWN".to_owned()));
                },
                TerminatingSignal::Unsupported => {},
            }
        },
    }
    object_text(record)
}

/// What asking for the end of the child brought.
pub enum ChildWait {
    Exited { code: Option<i32>, signal: TerminatingSignal },
    Running,
    Failed,
}

/// How the end of the child is reported: a line on the console and, where there is a logger, the
/// same message through the logger.
pub struct ExitReport {
    pub console: String,
    pub log: Option<LogAction>,
}

impl ExitReport {
    /// Whether this reports a message.
    pub open spec fn reports(self, logger: Option<Logger>, message: Seq<char>) -> bool {
        &&& self.console@ == console_text(LogStreamType::Command, message)
        &&& match (logger, self.log) {
            (Some(logger), Some(action)) => action.logs(logger@, LogStreamType::Command, message),
            (None, None) => true,
            _ => false,
        }
    }
}

/// How a message about the end of the child is reported.
pub fn exit_report(logger: &Option<Logger>, message: &str) -> (r: ExitReport)
    ensures
        r.reports(*logger, message@),
{
    ExitReport {
        console: console_line(LogStreamType::Command, message),
        log: match logger {
            Some(logger) => Some(logger.log(message, LogStreamType::Command)),
            None => None,
        },
    }
}

/// What follows from asking for the end of the child: to ask again later, to stop asking, or to
/// report the end and stop.
pub enum ExitStep {
    AskAgain,
    Stop,
    Report(ExitReport),
}

/// How long to wait before asking for the end of the child, in milliseconds.
pub const EXIT_POLL_MILLIS: u64 = 500;

/// Whether a report is that of an exit, at some time, in a record from which the texts can be
/// read back.
pub open spec fn reports_exit(
    report: ExitReport,
    logger: Option<Logger>,
    code: Option<i32>,
    signal: TerminatingSignal,
) -> bool {
    exists|timestamp: Seq<char>|
        #![trigger utc_stamp(timestamp)]
        utc_stamp(timestamp) && report.reports(
            logger,
            json_text(exit_record(code, signal, timestamp)),
        ) && parsed_texts(json_text(exit_record(code, signal, timestamp))) == Some(
            text_members(exit_record(code, signal, timestamp)),
        )
}

/// Takes what asking for the end of the child brought.
pub fn exit_step(logger: &Option<Logger>, wait: ChildWait) -> (r: ExitStep)
    ensures
        match (wait, r) {
            (ChildWait::Exited { code, signal }, ExitStep::Report(report)) => reports_exit(
                report,
                *logger,
                code,
                signal,
            ),
            (ChildWait::Running, ExitStep::AskAgain) => true,
            (ChildWait::Failed, ExitStep::Stop) => true,
            _ => false,
        },
{
    match wait {
        ChildWait::Exited { code, signal } => {
            let timestamp = utc_now();
            let message = exit_message(code, &signal, timestamp.as_str());
            ExitStep::Report(exit_report(logger, message.as_str()))
        },
        ChildWait::Running => ExitStep::AskAgain,
        ChildWait::Failed => ExitStep::Stop,
    }
}

/// What passes on for a line is the line itself and a line feed behind it, whatever the line is.
pub proof fn law_line_passes_on(line: Seq<char>)
    ensures
        forwarded(line) == encode_utf8(line) + seq![10u8],
        shown_text(forwarded(line)) == line + seq!['\n'],
{
    assert(line.push('\n') == line + seq!['\n']);
    law_text_is_shown(line.push('\n'));
    let end = seq!['\n'];
    lemma_encode_concat(line, end);
    is_ascii_chars_encode_utf8(end);
    assert(end[0] as u8 == 10);
    assert(encode_utf8(end) == seq![10u8]);
}

/// The service that a logger reports to is that of the logger, and none without a logger.
pub proof fn law_target_of(logger: Logger)
    ensures
        target_of(Some(logger)) == logger@,
        target_of(None) is None,
{
}

/// A line of the child is logged exactly where it has something else than white space, complete
/// and unchanged, on the console and, where the logger has a service, in the request to it.
pub proof fn law_line_of_the_child_is_logged(
    log: Option<LogAction>,
    logger: Option<Logger>,
    stream: LogStreamType,
    line: Seq<char>,
)
    requires
        logs_line(log, logger, stream, line),
    ensures
        log is Some <==> exists|i: int| 0 <= i < line.len() && !white_space(#[trigger] line[i]),
        log matches Some(action) ==> {
            &&& action.logs(
                match logger {
                    Some(logger) => logger@,
                    None => None,
                },
                stream,
                line,
            )
            &&& action.console@ == match stream {
                LogStreamType::Stdout => "[STDOUT] - "@,
                LogStreamType::Stderr => "[STDERR] - "@,
                LogStreamType::Stdin => "[STDIN] - "@,
                LogStreamType::Command => "[CMD] - "@,
            } + line
            &&& action.remote is Some <==> (logger matches Some(logger) && logger@ is Some)
            &&& action.remote matches Some(request) ==> {
                &&& request.url@ == logger->Some_0@->Some_0.url
                &&& text_under(request.body@, "message"@) == Some(line)
            }
        },
{
    if let Some(action) = log {
        law_logged_line_reads_back(action, target_of(logger), stream, line);
    }
}

/// The record of a start has the command, all its arguments, and the time, as they are.
pub proof fn law_start_record(
    command: Seq<char>,
    args: Seq<Seq<char>>,
    timestamp: Seq<char>,
    key: Seq<char>,
)
    ensures
        ({
            let record = start_record(command, args, timestamp);
            &&& record.contains_pair("event"@, MemberView::Text("process_start"@))
            &&& record.contains_pair("command"@, MemberView::Text(command))
            &&& record.contains_pair("args"@, MemberView::List(args))
            &&& record.contains_pair("timestamp"@, MemberView::Text(timestamp))
            &&& record.contains_key(key) ==> key == "event"@ || key == "command"@ || key
                == "args"@ || key == "timestamp"@
        }),
{
    lemma_record_keys();
}

proof fn lemma_record_keys()
    ensures
        "event"@ != "command"@,
        "event"@ != "args"@,
        "event"@ != "timestamp"@,
        "command"@ != "args"@,
        "command"@ != "timestamp"@,
        "args"@ != "timestamp"@,
        "event"@ != "exit_type"@,
        "event"@ != "exit_code"@,
        "event"@ != "signal"@,
        "event"@ != "signal_number"@,
        "timestamp"@ != "exit_type"@,
        "timestamp"@ != "exit_code"@,
        "timestamp"@ != "signal"@,
        "timestamp"@ != "signal_number"@,
        "exit_type"@ != "exit_code"@,
        "exit_type"@ != "signal"@,
        "exit_type"@ != "signal_number"@,
        "exit_code"@ != "signal"@,
        "exit_code"@ != "signal_number"@,
        "signal"@ != "signal_number"@,
        "normal"@ != "signal"@,
{
    reveal_strlit("event");
    reveal_strlit("command");
    reveal_strlit("args");
    reveal_strlit("timestamp");
    reveal_strlit("exit_type");
    reveal_strlit("exit_code");
    reveal_strlit("signal");
    reveal_strlit("signal_number");
    reveal_strlit("normal");
    assert("event"@.len() == 5);
    assert("command"@.len() == 7);
    assert("args"@.len() == 4);
    assert("timestamp"@.len() == 9 && "timestamp"@[0] == 't');
    assert("exit_type"@.len() == 9 && "exit_type"@[0] == 'e' && "exit_type"@[5] == 't');
    assert("exit_code"@.len() == 9 && "exit_code"@[0] == 'e' && "exit_code"@[5] == 'c');
    assert("signal"@.len() == 6 && "signal"@[0] == 's');
    assert("signal_number"@.len() == 13);
    assert("normal"@[0] == 'n');
}

/// The record of a child that ended with a code says that it ended normally and with which code,
/// whatever the code is, and nothing of a signal.
pub proof fn law_exit_code_is_recorded(
    code: i32,
    signal: TerminatingSignal,
    timestamp: Seq<char>,
    key: Seq<char>,
)
    ensures
        ({
            let record = exit_record(Some(code), signal, timestamp);
            &&& record.contains_pair("event"@, MemberView::Text("process_exit"@))
            &&& record.contains_pair("timestamp"@, MemberView::Text(timestamp))
            &&& record.contains_pair("exit_type"@, MemberView::Text("normal"@))
            &&& record.contains_pair("exit_code"@, MemberView::Number(code as int))
            &&& record.contains_key(key) ==> key == "event"@ || key == "timestamp"@ || key
                == "exit_type"@ || key == "exit_code"@
        }),
{
    lemma_record_keys();
}

/// The record of a child that was ended by a signal says so, and with which signal, by its number
/// and its name, where the system tells. It has no code.
pub proof fn law_signal_is_recorded(signal: TerminatingSignal, timestamp: Seq<char>, key: Seq<char>)
    ensures
        ({
            let record = exit_record(None, signal, timestamp);
            &&& record.contains_pair("event"@, MemberView::Text("process_exit"@))
            &&& record.contains_pair("timestamp"@, MemberView::Text(timestamp))
            &&& record.contains_pair("exit_type"@, MemberView::Text("signal"@))
            &&& !record.contains_key("exit_code"@)
            &&& signal matches TerminatingSignal::Known { number } ==> record.contains_pair(
                "signal_number"@,
                MemberView::Number(number as int),
            ) && record.contains_pair("signal"@, MemberView::Text(signal_name(number)))
            &&& signal is Unknown ==> record.contains_pair("signal"@, MemberView::Text("UNKNOWN"@))
                && !record.contains_key("signal_number"@)
            &&& signal is Unsupported ==> !record.contains_key("signal"@) && !record.contains_key(
                "signal_number"@,
            )
            &&& record.contains_key(key) ==> key == "event"@ || key == "timestamp"@ || key
                == "exit_type"@ || key == "signal"@ || key == "signal_number"@
        }),
{
    lemma_record_keys();
}

/// Children that ended differently have different records, whenever that was: the code, or the
/// number of the signal, can be told from the record.
pub proof fn law_exits_are_told_apart(
    a: Option<i32>,
    b: Option<i32>,
    s: TerminatingSignal,
    t: TerminatingSignal,
    then: Seq<char>,
    later: Seq<char>,
)
    requires
        exit_record(a, s, then) == exit_record(b, t, later),
    ensures
        a == b,
        a is None ==> s == t,
        then == later,
{
    lemma_record_keys();
    let one = exit_record(a, s, then);
    let two = exit_record(b, t, later);
    assert(one["timestamp"@] == two["timestamp"@]);
    assert(one["exit_type"@] == two["exit_type"@]);
    if a is Some {
        assert(one["exit_code"@] == two["exit_code"@]);
    } else {
        assert(one.contains_key("signal"@) == two.contains_key("signal"@));
        assert(one.contains_key("signal_number"@) == two.contains_key("signal_number"@));
        assert(one["signal_number"@] == two["signal_number"@]);
    }
}

/// The signals from one to thirty-one have these names, in their order, and no others have one.
pub proof fn law_signal_names(number: i32)
    ensures
        1 <= number <= 31 ==> signal_name(number) == seq![
            "SIGHUP"@,
            "SIGINT"@,
            "SIGQUIT"@,
            "SIGILL"@,
            "SIGTRAP"@,
            "SIGABRT"@,
            "SIGBUS"@,
            "SIGFPE"@,
            "SIGKILL"@,
            "SIGUSR1"@,
            "SIGSEGV"@,
            "SIGUSR2"@,
            "SIGPIPE"@,
            "SIGALRM"@,
            "SIGTERM"@,
            "SIGSTKFLT"@,
            "SIGCHLD"@,
            "SIGCONT"@,
            "SIGSTOP"@,
            "SIGTSTP"@,
            "SIGTTIN"@,
            "SIGTTOU"@,
            "SIGURG"@,
            "SIGXCPU"@,
            "SIGXFSZ"@,
            "SIGVTALRM"@,
            "SIGPROF"@,
            "SIGWINCH"@,
            "SIGIO"@,
            "SIGPWR"@,
            "SIGSYS"@,
        ][number - 1],
        number < 1 || number > 31 ==> signal_name(number) == "UNKNOWN"@,
{
    if 1 <= number <= 31 {
        let n = number;
        assert(n == 1 || n == 2 || n == 3 || n == 4 || n == 5 || n == 6 || n == 7 || n == 8 || n
            == 9 || n == 10 || n == 11 || n == 12 || n == 13 || n == 14 || n == 15 || n == 16 || n
            == 17 || n == 18 || n == 19 || n == 20 || n == 21 || n == 22 || n == 23 || n == 24 || n
            == 25 || n == 26 || n == 27 || n == 28 || n == 29 || n == 30 || n == 31);
    }
}

/// A message about the end of the child stands on the console, complete and unchanged, and goes to
/// the logger exactly where there is one.
pub proof fn law_message_is_reported(
    report: ExitReport,
    logger: Option<Logger>,
    message: Seq<char>,
)
    requires
        report.reports(logger, message),
    ensures
        report.console@ == "[CMD] - "@ + message,
        report.log is Some <==> logger is Some,
        report.log matches Some(action) ==> action.logs(
            logger->Some_0@,
            LogStreamType::Command,
            message,
        ),
{
    law_console_shows_the_line(LogStreamType::Command, seq![], message);
    assert(Seq::<char>::empty() + message == message);
}

/// A report of an exit shows a message on the console that says how the child ended, in a record
/// from which the texts can be read back, and hands the same message to the logger, if there is
/// one.
pub proof fn law_exit_is_reported(
    report: ExitReport,
    logger: Option<Logger>,
    code: Option<i32>,
    signal: TerminatingSignal,
) -> (r: (Seq<char>, Seq<char>))
    requires
        reports_exit(report, logger, code, signal),
    ensures
        report.console@ == "[CMD] - "@ + r.0,
        r.0 == json_text(exit_record(code, signal, r.1)),
        utc_stamp(r.1),
        text_under(r.0, "event"@) == Some("process_exit"@),
        text_under(r.0, "timestamp"@) == Some(r.1),
        text_under(r.0, "exit_type"@) == Some(
            if code is Some {
                "normal"@
            } else {
                "signal"@
            },
        ),
        code is None ==> (signal matches TerminatingSignal::Known { number } ==> text_under(
            r.0,
            "signal"@,
        ) == Some(signal_name(number))),
        report.log is Some <==> logger is Some,
        report.log matches Some(action) ==> {
            &&& action.console@ == "[CMD] - "@ + r.0
            &&& action.remote is Some <==> logger->Some_0@ is Some
            &&& action.remote matches Some(request) ==> text_under(request.body@, "message"@)
                == Some(r.0) && text_under(request.body@, "logType"@) == Some("cmd_log"@)
        },
{
    let timestamp = choose|timestamp: Seq<char>|
        #![trigger utc_stamp(timestamp)]
        utc_stamp(timestamp) && report.reports(
            logger,
            json_text(exit_record(code, signal, timestamp)),
        ) && parsed_texts(json_text(exit_record(code, signal, timestamp))) == Some(
            text_members(exit_record(code, signal, timestamp)),
        );
    let message = json_text(exit_record(code, signal, timestamp));
    lemma_record_keys();
    law_console_shows_the_line(LogStreamType::Command, seq![], message);
    assert(Seq::<char>::empty() + message == message);
    if let Some(action) = report.log {
        law_logged_line_reads_back(action, logger->Some_0@, LogStreamType::Command, message);
    }
    (message, timestamp)
}

} // verus!
