//! What is logged: to the console always, and to a remote service where one is configured.

use crate::clock::{utc_now, utc_stamp};
use crate::json::{
    json_text, new_object, no_members, object_text, parsed_texts, plain_members,
    put, text_members, text_under, Member, MemberView,
};
use crate::status::{status_code, status_line, status_text, success};
use crate::text::joined;
use vstd::prelude::*;

verus! {

/// Where a logged line comes from.
#[derive(Debug, Clone, Copy, PartialEq, Eq, Structural)]
pub enum LogStreamType {
    Stdout,
    Stderr,
    Stdin,
    Command,
}

impl LogStreamType {
    /// The name under which the remote service files the line.
    pub open spec fn log_type(self) -> Seq<char> {
        match self {
            LogStreamType::Stdout => "mcp_stdout"@,
            LogStreamType::Stderr => "mcp_stderr"@,
            LogStreamType::Stdin => "mcp_stdin"@,
            LogStreamType::Command => "cmd_log"@,
        }
    }

    /// The mark in front of the line on the console.
    pub open spec fn display(self) -> Seq<char> {
        match self {
            LogStreamType::Stdout => "[STDOUT]"@,
            LogStreamType::Stderr => "[STDERR]"@,
            LogStreamType::Stdin => "[STDIN]"@,
            LogStreamType::Command => "[CMD]"@,
        }
    }

    /// The name under which the remote service files the line.
    pub fn as_log_type(&self) -> (r: &'static str)
        ensures
            r@ == self.log_type(),
    {
        match self {
            LogStreamType::Stdout => "mcp_stdout",
            LogStreamType::Stderr => "mcp_stderr",
            LogStreamType::Stdin => "mcp_stdin",
            LogStreamType::Command => "cmd_log",
        }
    }

    /// The mark in front of the line on the console.
    pub fn as_display(&self) -> (r: &'static str)
        ensures
            r@ == self.display(),
    {
        match self {
            LogStreamType::Stdout => "[STDOUT]",
            LogStreamType::Stderr => "[STDERR]",
            LogStreamType::Stdin => "[STDIN]",
            LogStreamType::Command => "[CMD]",
        }
    }
}

/// Lines of different streams are told apart on the console and by the remote service.
pub proof fn law_streams_are_told_apart(a: LogStreamType, b: LogStreamType)
    requires
        a != b,
    ensures
        a.display() != b.display(),
        a.log_type() != b.log_type(),
{
    reveal_strlit("mcp_stdout");
    reveal_strlit("mcp_stderr");
    reveal_strlit("mcp_stdin");
    reveal_strlit("cmd_log");
    reveal_strlit("[STDOUT]");
    reveal_strlit("[STDERR]");
    reveal_strlit("[STDIN]");
    reveal_strlit("[CMD]");
    assert("mcp_stdout"@.len() == 10 && "mcp_stderr"@.len() == 10 && "mcp_stdin"@.len() == 9);
    assert("cmd_log"@.len() == 7);
    assert("[STDOUT]"@.len() == 8 && "[STDERR]"@.len() == 8 && "[STDIN]"@.len() == 7);
    assert("[CMD]"@.len() == 5);
    assert("mcp_stdout"@[7] == 'o' && "mcp_stderr"@[7] == 'e');
    assert("[STDOUT]"@[4] == 'O' && "[STDERR]"@[4] == 'E');
}

/// A line as it stands on the console.
pub open spec fn console_text(stream: LogStreamType, line: Seq<char>) -> Seq<char> {
    stream.display() + " - "@ + line
}

/// A line as it stands on the console.
pub fn console_line(stream: LogStreamType, line: &str) -> (r: String)
    ensures
        r@ == console_text(stream, line@),
{
    joined(joined(stream.as_display(), " - ").as_str(), line)
}

/// The remote logging service and the token that it asks for.
struct LogConfig {
    url: String,
    access_token: String,
}

/// The service that a logger reports to: its address and the access token.
pub struct LogTarget {
    pub url: Seq<char>,
    pub access_token: Seq<char>,
}

/// Decides what becomes of a line that is logged.
pub struct Logger {
    config: Option<LogConfig>,
}

impl View for Logger {
    type V = Option<LogTarget>;

    closed spec fn view(&self) -> Option<LogTarget> {
        match self.config {
            Some(config) => Some(
                LogTarget { url: config.url@, access_token: config.access_token@ },
            ),
            None => None,
        }
    }
}

impl Clone for Logger {
    fn clone(&self) -> (r: Self)
        ensures
            r@ == self@,
    {
        match &self.config {
            Some(config) => Logger {
                config: Some(
                    LogConfig {
                        url: config.url.clone(),
                        access_token: config.access_token.clone(),
                    },
                ),
            },
            None => Logger { config: None },
        }
    }
}

/// The members of the record that the remote service gets for a line.
pub open spec fn log_record(
    stream: LogStreamType,
    message: Seq<char>,
    timestamp: Seq<char>,
) -> Map<Seq<char>, MemberView> {
    no_members().insert("logType"@, MemberView::Text(stream.log_type())).insert(
        "level"@,
        MemberView::Text("info"@),
    ).insert("message"@, MemberView::Text(message)).insert(
        "timestamp"@,
        MemberView::Text(timestamp),
    )
}

proof fn lemma_log_record(stream: LogStreamType, message: Seq<char>, timestamp: Seq<char>)
    ensures
        plain_members(log_record(stream, message, timestamp)),
        text_members(log_record(stream, message, timestamp)) == Map::<Seq<char>, Seq<char>>::empty()
            .insert("logType"@, stream.log_type())
            .insert("level"@, "info"@)
            .insert("message"@, message)
            .insert("timestamp"@, timestamp),
        "logType"@ != "level"@,
        "logType"@ != "message"@,
        "logType"@ != "timestamp"@,
        "level"@ != "message"@,
        "level"@ != "timestamp"@,
        "message"@ != "timestamp"@,
{
    reveal_strlit("logType");
    reveal_strlit("level");
    reveal_strlit("message");
    reveal_strlit("timestamp");
    assert("logType"@[0] == 'l' && "level"@[0] == 'l' && "message"@[0] == 'm' && "timestamp"@[0]
        == 't');
    assert("logType"@.len() != "level"@.len());
    assert(text_members(log_record(stream, message, timestamp)) =~= Map::<
        Seq<char>,
        Seq<char>,
    >::empty().insert("logType"@, stream.log_type()).insert("level"@, "info"@).insert(
        "message"@,
        message,
    ).insert("timestamp"@, timestamp));
}

/// A request to the remote logging service: what is posted, where to, and with which headers.
pub struct LogRequest {
    pub url: String,
    pub headers: Vec<(String, String)>,
    pub body: String,
}

impl LogRequest {
    /// Whether this is the request that reports a line to a service.
    pub open spec fn reports(
        self,
        target: LogTarget,
        stream: LogStreamType,
        message: Seq<char>,
        timestamp: Seq<char>,
    ) -> bool {
        &&& self.url@ == target.url
        &&& self.headers@.len() == 2
        &&& self.headers@[0].0@ == "x-api-key"@
        &&& self.headers@[0].1@ == target.access_token
        &&& self.headers@[1].0@ == "content-type"@
        &&& self.headers@[1].1@ == "application/json"@
        &&& self.body@ == json_text(log_record(stream, message, timestamp))
        &&& parsed_texts(self.body@) == Some(
            text_members(log_record(stream, message, timestamp)),
        )
    }
}

/// What becomes of a line that is logged: a line on the console and, where a service is
/// configured, a request to it.
pub struct LogAction {
    pub console: String,
    pub remote: Option<LogRequest>,
}

impl LogAction {
    /// Whether this is what becomes of a line, at a certain time.
    pub open spec fn logs_at(
        self,
        target: Option<LogTarget>,
        stream: LogStreamType,
        line: Seq<char>,
        timestamp: Seq<char>,
    ) -> bool {
        &&& self.console@ == console_text(stream, line)
        &&& match (target, self.remote) {
            (Some(target), Some(request)) => request.reports(target, stream, line, timestamp),
            (None, None) => true,
            _ => false,
        }
    }

    /// Whether this is what becomes of a line, at some time.
    pub open spec fn logs(
        self,
        target: Option<LogTarget>,
        stream: LogStreamType,
        line: Seq<char>,
    ) -> bool {
        &&& self.console@ == console_text(stream, line)
        &&& target is None ==> self.remote is None
        &&& target is Some ==> exists|timestamp: Seq<char>|
            #![trigger utc_stamp(timestamp)]
            utc_stamp(timestamp) && self.logs_at(target, stream, line, timestamp)
    }
}

impl Logger {
    /// A logger that reports to the remote service if both its address and a token are given, and
    /// to the console alone otherwise.
    pub fn new(log_url: Option<String>, access_token: Option<String>) -> (r: Self)
        ensures
            r@ == match (log_url, access_token) {
                (Some(url), Some(token)) => Some(LogTarget { url: url@, access_token: token@ }),
                _ => None,
            },
    {
        match (log_url, access_token) {
            (Some(url), Some(token)) => Logger {
                config: Some(LogConfig { url, access_token: token }),
            },
            _ => Logger { config: None },
        }
    }

    /// The request that reports a line to the remote service, if one is configured.
    pub fn remote_request(
        &self,
        message: &str,
        stream_type: LogStreamType,
        timestamp: &str,
    ) -> (r: Option<LogRequest>)
        ensures
            match (self@, r) {
                (Some(target), Some(request)) => request.reports(
                    target,
                    stream_type,
                    message@,
                    timestamp@,
                ),
                (None, None) => true,
                _ => false,
            },
    {
        match &self.config {
            Some(config) => {
                let mut payload = new_object();
                put(&mut payload, "logType", Member::Text(stream_type.as_log_type().to_owned()));
                put(&mut payload, "level", Member::Text("info".to_owned()));
                put(&mut payload, "message", Member::Text(message.to_owned()));
                put(&mut payload, "timestamp", Member::Text(timestamp.to_owned()));
                let mut headers: Vec<(String, String)> = Vec::new();
                headers.push(("x-api-key".to_owned(), config.access_token.clone()));
                headers.push(("content-type".to_owned(), "application/json".to_owned()));
                proof {
                    lemma_log_record(stream_type, message@, timestamp@);
                }
                Some(LogRequest { url: config.url.clone(), headers, body: object_text(payload) })
            },
            None => None,
        }
    }

    /// What becomes of a line that is logged at the given time.
    pub fn log_at(&self, line: &str, stream_type: LogStreamType, timestamp: &str) -> (r: LogAction)
        ensures
            r.logs_at(self@, stream_type, line@, timestamp@),
    {
        LogAction {
            console: console_line(stream_type, line),
            remote: self.remote_request(line, stream_type, timestamp),
        }
    }

    /// What becomes of a line that is logged now.
    pub fn log(&self, line: &str, stream_type: LogStreamType) -> (r: LogAction)
        ensures
            r.logs(self@, stream_type, line@),
    {
        match &self.config {
            Some(_) => {
                let timestamp = utc_now();
                self.log_at(line, stream_type, timestamp.as_str())
            },
            None => LogAction { console: console_line(stream_type, line), remote: None },
        }
    }
}

/// Whoever reads the body of a log request finds the stream, the level, the line itself and the
/// time, unchanged, whatever characters the line has.
pub proof fn law_log_request_reads_back(
    request: LogRequest,
    target: LogTarget,
    stream: LogStreamType,
    message: Seq<char>,
    timestamp: Seq<char>,
)
    requires
        request.reports(target, stream, message, timestamp),
    ensures
        text_under(request.body@, "logType"@) == Some(stream.log_type()),
        text_under(request.body@, "level"@) == Some("info"@),
        text_under(request.body@, "message"@) == Some(message),
        text_under(request.body@, "timestamp"@) == Some(timestamp),
{
    lemma_log_record(stream, message, timestamp);
}

/// How posting a log record ended: with a response of some status, or with an error.
pub enum Delivery {
    Answered(u16),
    Failed(String),
}

/// What is reported when the remote service answers with this status, which is no success.
pub fn refusal_text(status: &str) -> (r: String)
    ensures
        r@ == "Failed to send log to remote URL: HTTP "@ + status@,
{
    joined("Failed to send log to remote URL: HTTP ", status)
}

impl Delivery {
    /// What is reported on the error console, if anything.
    pub open spec fn complaint(self) -> Option<Seq<char>> {
        match self {
            Delivery::Answered(code) => if success(code) {
                None
            } else {
                Some("Failed to send log to remote URL: HTTP "@ + status_line(code))
            },
            Delivery::Failed(error) => Some("Error sending log to remote URL: "@ + error@),
        }
    }

    /// What is reported on the error console, if anything: a response that is no success, or the
    /// error.
    pub fn report(&self) -> (r: Option<String>)
        requires
            self matches Delivery::Answered(code) ==> status_code(*code),
        ensures
            match r {
                Some(text) => self.complaint() == Some(text@),
                None => self.complaint() is None,
            },
    {
        match self {
            Delivery::Answered(code) => {
                if 200 <= *code && *code < 300 {
                    None
                } else {
                    let status = status_text(*code);
                    Some(refusal_text(status.as_str()))
                }
            },
            Delivery::Failed(error) => Some(
                joined("Error sending log to remote URL: ", error.as_str()),
            ),
        }
    }
}

/// What stands in front of a line on the console does not depend on the line, which stands there
/// complete and unchanged.
pub proof fn law_console_shows_the_line(stream: LogStreamType, a: Seq<char>, b: Seq<char>)
    ensures
        console_text(stream, a + b) == console_text(stream, a) + b,
        console_text(stream, seq![]) == match stream {
            LogStreamType::Stdout => "[STDOUT] - "@,
            LogStreamType::Stderr => "[STDERR] - "@,
            LogStreamType::Stdin => "[STDIN] - "@,
            LogStreamType::Command => "[CMD] - "@,
        },
{
    lemma_console_marks();
    let mark = stream.display() + " - "@;
    assert(mark + (a + b) == mark + a + b);
    assert(mark + Seq::<char>::empty() == mark);
}

proof fn lemma_console_marks()
    ensures
        "[STDOUT]"@ + " - "@ == "[STDOUT] - "@,
        "[STDERR]"@ + " - "@ == "[STDERR] - "@,
        "[STDIN]"@ + " - "@ == "[STDIN] - "@,
        "[CMD]"@ + " - "@ == "[CMD] - "@,
{
    reveal_strlit("[STDOUT]");
    reveal_strlit("[STDERR]");
    reveal_strlit("[STDIN]");
    reveal_strlit("[CMD]");
    reveal_strlit(" - ");
    reveal_strlit("[STDOUT] - ");
    reveal_strlit("[STDERR] - ");
    reveal_strlit("[STDIN] - ");
    reveal_strlit("[CMD] - ");
    assert("[STDOUT]"@ + " - "@ =~= "[STDOUT] - "@);
    assert("[STDERR]"@ + " - "@ =~= "[STDERR] - "@);
    assert("[STDIN]"@ + " - "@ =~= "[STDIN] - "@);
    assert("[CMD]"@ + " - "@ =~= "[CMD] - "@);
}

/// A line that is logged stands on the console behind the mark of its stream. Where a service is
/// configured, and only there, a request goes to its address with its token, and whoever reads the
/// body finds the line, the stream and the time, unchanged.
pub proof fn law_logged_line_reads_back(
    action: LogAction,
    target: Option<LogTarget>,
    stream: LogStreamType,
    line: Seq<char>,
)
    requires
        action.logs(target, stream, line),
    ensures
        action.console@ == match stream {
            LogStreamType::Stdout => "[STDOUT] - "@,
            LogStreamType::Stderr => "[STDERR] - "@,
            LogStreamType::Stdin => "[STDIN] - "@,
            LogStreamType::Command => "[CMD] - "@,
        } + line,
        action.remote is Some <==> target is Some,
        action.remote matches Some(request) ==> {
            &&& request.url@ == target->Some_0.url
            &&& request.headers@.len() == 2
            &&& request.headers@[0].0@ == "x-api-key"@
            &&& request.headers@[0].1@ == target->Some_0.access_token
            &&& request.headers@[1].0@ == "content-type"@
            &&& request.headers@[1].1@ == "application/json"@
            &&& text_under(request.body@, "message"@) == Some(line)
            &&& text_under(request.body@, "level"@) == Some("info"@)
            &&& text_under(request.body@, "logType"@) == Some(
                match stream {
                    LogStreamType::Stdout => "mcp_stdout"@,
                    LogStreamType::Stderr => "mcp_stderr"@,
                    LogStreamType::Stdin => "mcp_stdin"@,
                    LogStreamType::Command => "cmd_log"@,
                },
            )
            &&& text_under(request.body@, "timestamp"@) matches Some(timestamp) && utc_stamp(
                timestamp,
            )
        },
{
    lemma_console_marks();
    if target is Some {
        let timestamp = choose|timestamp: Seq<char>|
            #![trigger utc_stamp(timestamp)]
            utc_stamp(timestamp) && action.logs_at(target, stream, line, timestamp);
        law_log_request_reads_back(
            action.remote->Some_0,
            target->Some_0,
            stream,
            line,
            timestamp,
        );
    }
}

/// A line that is logged at a given time is stamped with it, and the rest is as at any time.
pub proof fn law_logged_line_is_stamped(
    action: LogAction,
    target: Option<LogTarget>,
    stream: LogStreamType,
    line: Seq<char>,
    timestamp: Seq<char>,
)
    requires
        action.logs_at(target, stream, line, timestamp),
    ensures
        utc_stamp(timestamp) ==> action.logs(target, stream, line),
        action.remote is Some <==> target is Some,
        action.remote matches Some(request) ==> text_under(request.body@, "timestamp"@) == Some(
            timestamp,
        ) && text_under(request.body@, "message"@) == Some(line),
{
    if target is Some {
        law_log_request_reads_back(
            action.remote->Some_0,
            target->Some_0,
            stream,
            line,
            timestamp,
        );
    }
}

/// The record of a line has exactly four members, all of them texts.
pub proof fn law_log_record_members(
    stream: LogStreamType,
    message: Seq<char>,
    timestamp: Seq<char>,
    key: Seq<char>,
)
    ensures
        log_record(stream, message, timestamp).contains_key(key) <==> key == "logType"@ || key
            == "level"@ || key == "message"@ || key == "timestamp"@,
        log_record(stream, message, timestamp).contains_key(key) ==> log_record(
            stream,
            message,
            timestamp,
        )[key] is Text,
{
}

/// Posting a log record is complained about exactly where it failed or its answer is no success,
/// and the complaint ends in the error or the status.
pub proof fn law_complaints(delivery: Delivery)
    ensures
        match delivery {
            Delivery::Answered(code) => if 200 <= code <= 299 {
                delivery.complaint() is None
            } else {
                delivery.complaint() == Some(
                    "Failed to send log to remote URL: HTTP "@ + status_line(code),
                )
            },
            Delivery::Failed(error) => delivery.complaint() == Some(
                "Error sending log to remote URL: "@ + error@,
            ),
        },
{
}

} // verus!
