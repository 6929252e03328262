//! The server side of the proxy: a stdio server, run as a child process, is exposed over HTTP.

use crate::clock::{utc_now, utc_stamp};
use crate::json::{json_text, parsed_texts, text_members, text_under};
use crate::logging::{
    law_logged_line_reads_back, LogAction, LogStreamType, LogTarget, Logger,
};
use crate::process::{copy_list, law_start_record, start_message, start_record};
use crate::string_map::{lists_entries, StringMap};
use crate::text::views;
use std::time::Duration;
use vstd::prelude::*;

verus! {

/// Settings of the HTTP server: the address to listen on, as a host and a port, and the time
/// after which a silent stream is kept alive.
pub struct HttpServerSettings {
    pub bind_addr: String,
    pub keep_alive: Option<Duration>,
}

/// The stdio server to run: its command, arguments and environment, and where to log.
pub struct StdioServerParameters {
    pub command: String,
    pub args: Vec<String>,
    pub env: StringMap,
    pub log_url: Option<String>,
    pub access_token: Option<String>,
}

/// The child process to start: how it is announced in the log, the program with its arguments,
/// whether it gets the environment of the proxy, the variables to set in its environment, and the
/// logger of its input and output.
pub struct ChildLaunch {
    pub announcement: LogAction,
    pub program: String,
    pub args: Vec<String>,
    pub inherit_env: bool,
    pub env: Vec<(String, String)>,
    pub logger: Logger,
}

/// Whether an action announces that a child is started, at some time, in a record from which the
/// texts can be read back.
pub open spec fn announces_start(
    action: LogAction,
    target: Option<LogTarget>,
    command: Seq<char>,
    args: Seq<Seq<char>>,
) -> bool {
    exists|timestamp: Seq<char>|
        #![trigger utc_stamp(timestamp)]
        utc_stamp(timestamp) && action.logs(
            target,
            LogStreamType::Command,
            json_text(start_record(command, args, timestamp)),
        ) && parsed_texts(json_text(start_record(command, args, timestamp))) == Some(
            text_members(start_record(command, args, timestamp)),
        )
}

/// Runs a stdio server and logs what passes through it.
pub struct SseServerManager {
    logger: Logger,
}

impl View for SseServerManager {
    type V = Option<LogTarget>;

    closed spec fn view(&self) -> Option<LogTarget> {
        self.logger@
    }
}

impl SseServerManager {
    /// A manager that logs to the remote service if both its address and a token are given, and to
    /// the console alone otherwise.
    pub fn new(log_url: Option<String>, access_token: Option<String>) -> (r: Self)
        ensures
            r@ == match (log_url, access_token) {
                (Some(url), Some(token)) => Some(LogTarget { url: url@, access_token: token@ }),
                _ => None,
            },
    {
        SseServerManager { logger: Logger::new(log_url, access_token) }
    }

    /// What becomes of a line that the manager logs.
    pub fn log(&self, line: &str, stream_type: LogStreamType) -> (r: LogAction)
        ensures
            r.logs(self@, stream_type, line@),
    {
        self.logger.log(line, stream_type)
    }

    /// How the start of a child at the given time is announced.
    pub fn announce(&self, command_name: &str, args: &Vec<String>, timestamp: &str) -> (r:
        LogAction)
        ensures
            r.logs(
                self@,
                LogStreamType::Command,
                json_text(start_record(command_name@, views(args@), timestamp@)),
            ),
            parsed_texts(json_text(start_record(command_name@, views(args@), timestamp@))) == Some(
                text_members(start_record(command_name@, views(args@), timestamp@)),
            ),
    {
        let message = start_message(command_name, args, timestamp);
        self.log(message.as_str(), LogStreamType::Command)
    }

    /// The child process to start for a command. Its environment has the given variables and no
    /// others: what the proxy passes on of its own is among them.
    pub fn create_child_process_with_logging(
        &self,
        command_name: &str,
        args: &Vec<String>,
        env: &StringMap,
    ) -> (r: ChildLaunch)
        ensures
            announces_start(r.announcement, self@, command_name@, views(args@)),
            r.program@ == command_name@,
            views(r.args@) == views(args@),
            !r.inherit_env,
            lists_entries(r.env@, env@),
            r.logger@ == self@,
    {
        let timestamp = utc_now();
        let announcement = self.announce(command_name, args, timestamp.as_str());
        ChildLaunch {
            announcement,
            program: command_name.to_owned(),
            args: copy_list(args),
            inherit_env: false,
            env: env.to_list(),
            logger: self.logger.clone(),
        }
    }
}

/// The manager that runs a stdio server, with the logging that its parameters ask for.
pub fn server_manager(params: &StdioServerParameters) -> (r: SseServerManager)
    ensures
        r@ == match (params.log_url, params.access_token) {
            (Some(url), Some(token)) => Some(LogTarget { url: url@, access_token: token@ }),
            _ => None,
        },
{
    let log_url = match &params.log_url {
        Some(url) => Some(url.clone()),
        None => None,
    };
    let access_token = match &params.access_token {
        Some(token) => Some(token.clone()),
        None => None,
    };
    SseServerManager::new(log_url, access_token)
}

/// The start of a child is announced by a message on the console that names the command, in a
/// record from which the texts can be read back, and the same message goes to the service, if one
/// is configured.
pub proof fn law_start_is_announced(
    action: LogAction,
    target: Option<LogTarget>,
    command: Seq<char>,
    args: Seq<Seq<char>>,
) -> (r: (Seq<char>, Seq<char>))
    requires
        announces_start(action, target, command, args),
    ensures
        action.console@ == "[CMD] - "@ + r.0,
        r.0 == json_text(start_record(command, args, r.1)),
        utc_stamp(r.1),
        text_under(r.0, "event"@) == Some("process_start"@),
        text_under(r.0, "command"@) == Some(command),
        text_under(r.0, "timestamp"@) == Some(r.1),
        action.remote is Some <==> target is Some,
        action.remote matches Some(request) ==> {
            &&& request.url@ == target->Some_0.url
            &&& text_under(request.body@, "message"@) == Some(r.0)
            &&& text_under(request.body@, "logType"@) == Some("cmd_log"@)
        },
{
    let timestamp = choose|timestamp: Seq<char>|
        #![trigger utc_stamp(timestamp)]
        utc_stamp(timestamp) && action.logs(
            target,
            LogStreamType::Command,
            json_text(start_record(command, args, timestamp)),
        ) && parsed_texts(json_text(start_record(command, args, timestamp))) == Some(
            text_members(start_record(command, args, timestamp)),
        );
    let record = start_record(command, args, timestamp);
    let message = json_text(record);
    law_start_record(command, args, timestamp, seq![]);
    assert(text_members(record).contains_key("event"@));
    assert(text_members(record).contains_key("command"@));
    assert(text_members(record).contains_key("timestamp"@));
    law_logged_line_reads_back(action, target, LogStreamType::Command, message);
    (message, timestamp)
}

} // verus!
