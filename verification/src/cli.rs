//! What a command line asks for.

use crate::clock::{duration_nanos, whole_seconds};
use crate::events::KEEP_ALIVE_SECONDS;
use crate::sse_client::LocalSseClientConfig;
use crate::sse_server::{HttpServerSettings, StdioServerParameters};
use crate::string_map::StringMap;
use crate::text::{
    begins_with, decimal, joined, law_begins_with, push_decimal, starts_with, views,
};
use vstd::prelude::*;

verus! {

/// The arguments of the command line.
pub struct CliArguments {
    pub command_or_url: Option<String>,
    pub headers: Vec<String>,
    pub args: Vec<String>,
    pub env_vars: Vec<String>,
    pub pass_environment: bool,
    pub port: u16,
    pub host: String,
    pub log_url: Option<String>,
    pub access_token: Option<String>,
}

impl CliArguments {
    /// The command or URL: the one that is given as such or else the first of the arguments.
    pub open spec fn command(self) -> Option<Seq<char>> {
        match self.command_or_url {
            Some(command) => Some(command@),
            None => if self.args@.len() > 0 {
                Some(self.args@[0]@)
            } else {
                None
            },
        }
    }

    /// The arguments of the command: all those that do not serve as the command.
    pub open spec fn command_args(self) -> Seq<Seq<char>> {
        if self.command_or_url is Some {
            views(self.args@)
        } else {
            views(self.args@).skip(1)
        }
    }
}

/// Why a command line asks for nothing.
#[derive(Debug, Clone, Copy, PartialEq, Eq, Structural)]
pub enum CliError {
    MissingCommand,
}

impl CliError {
    /// The message that tells the user.
    pub fn message(&self) -> (r: String)
        ensures
            r@ == "Error: command or URL is required"@,
    {
        "Error: command or URL is required".to_owned()
    }

    /// The exit code of the program.
    pub fn exit_code(&self) -> (r: i32)
        ensures
            r == 1,
    {
        1
    }
}

/// A stdio server to run and to expose over HTTP.
pub struct ServerInvocation {
    pub command: String,
    pub args: Vec<String>,
    pub env_vars: Vec<String>,
    pub pass_environment: bool,
    pub port: u16,
    pub host: String,
    pub log_url: Option<String>,
    pub access_token: Option<String>,
}

/// What a command line asks for: to connect to a remote server, to delete the stored
/// authentication, or to run a server.
pub enum Invocation {
    Client(LocalSseClientConfig),
    Reset,
    Server(ServerInvocation),
}

/// Whether a command is the URL of a remote server.
pub open spec fn url(command: Seq<char>) -> bool {
    begins_with(command, "http://"@) || begins_with(command, "https://"@)
}

/// A map in which the texts of a list are set, as keys and values in turn. A key without a value
/// at the end is left out.
pub open spec fn with_pairs(
    map: Map<Seq<char>, Seq<char>>,
    list: Seq<Seq<char>>,
) -> Map<Seq<char>, Seq<char>>
    decreases list.len(),
{
    if list.len() < 2 {
        map
    } else {
        with_pairs(map.insert(list[0], list[1]), list.skip(2))
    }
}

/// A map in which the entries of a list are set.
pub open spec fn with_entries(
    map: Map<Seq<char>, Seq<char>>,
    list: Seq<(String, String)>,
) -> Map<Seq<char>, Seq<char>>
    decreases list.len(),
{
    if list.len() == 0 {
        map
    } else {
        with_entries(map.insert(list[0].0@, list[0].1@), list.skip(1))
    }
}

/// Sets the texts of a list as keys and values in turn.
pub fn insert_pairs(map: &mut StringMap, list: &Vec<String>)
    ensures
        final(map)@ == with_pairs(old(map)@, views(list@)),
{
    let ghost texts = views(list@);
    let mut i: usize = 0;
    assert(texts.skip(0) == texts);
    while i < list.len() && list.len() - i >= 2
        invariant
            i <= list@.len(),
            texts == views(list@),
            with_pairs(map@, texts.skip(i as int)) == with_pairs(old(map)@, texts),
        decreases list@.len() - i,
    {
        assert(texts.skip(i as int)[0] == list@[i as int]@);
        assert(texts.skip(i as int)[1] == list@[i + 1]@);
        assert(texts.skip(i as int).skip(2) == texts.skip(i + 2));
        map.insert(list[i].clone(), list[i + 1].clone());
        i = i + 2;
    }
}

/// Sets the entries of a list.
pub fn insert_entries(map: &mut StringMap, list: &Vec<(String, String)>)
    ensures
        final(map)@ == with_entries(old(map)@, list@),
{
    let mut i: usize = 0;
    assert(list@.skip(0) == list@);
    while i < list.len()
        invariant
            i <= list@.len(),
            with_entries(map@, list@.skip(i as int)) == with_entries(old(map)@, list@),
        decreases list@.len() - i,
    {
        assert(list@.skip(i as int).skip(1) == list@.skip(i + 1));
        map.insert(list[i].0.clone(), list[i].1.clone());
        i = i + 1;
    }
}

/// Whether an invocation is what a command line asks for.
pub open spec fn asked_for(cli: CliArguments, command: Seq<char>, r: Invocation) -> bool {
    match r {
        Invocation::Client(config) => {
            &&& url(command)
            &&& config.url@ == command
            &&& config.headers@ == with_pairs(Map::empty(), views(cli.headers@))
        },
        Invocation::Reset => !url(command) && command == "reset"@,
        Invocation::Server(server) => {
            &&& !url(command) && command != "reset"@
            &&& server.command@ == command
            &&& views(server.args@) == cli.command_args()
            &&& server.env_vars == cli.env_vars
            &&& server.pass_environment == cli.pass_environment
            &&& server.port == cli.port
            &&& server.host == cli.host
            &&& server.log_url == cli.log_url
            &&& server.access_token == cli.access_token
        },
    }
}

/// Decides what a command line asks for.
pub fn invocation(cli: CliArguments) -> (r: Result<Invocation, CliError>)
    ensures
        match (cli.command(), r) {
            (Some(command), Ok(invocation)) => asked_for(cli, command, invocation),
            (None, Err(error)) => error == CliError::MissingCommand,
            _ => false,
        },
{
    let mut args = cli.args;
    let command = match cli.command_or_url {
        Some(command) => command,
        None => {
            if args.len() == 0 {
                return Err(CliError::MissingCommand);
            }
            let first = args.remove(0);
            assert(views(args@) == views(cli.args@).skip(1));
            first
        },
    };
    if starts_with(command.as_str(), "http://") || starts_with(command.as_str(), "https://") {
        let mut headers = StringMap::new();
        insert_pairs(&mut headers, &cli.headers);
        Ok(Invocation::Client(LocalSseClientConfig { url: command, headers }))
    } else if command == "reset".to_owned() {
        Ok(Invocation::Reset)
    } else {
        Ok(
            Invocation::Server(
                ServerInvocation {
                    command,
                    args,
                    env_vars: cli.env_vars,
                    pass_environment: cli.pass_environment,
                    port: cli.port,
                    host: cli.host,
                    log_url: cli.log_url,
                    access_token: cli.access_token,
                },
            ),
        )
    }
}

/// The environment that is set for a server: the environment of the proxy where it is passed
/// through, and over it the variables of the command line.
pub open spec fn server_env(
    pass_environment: bool,
    inherited: Seq<(String, String)>,
    env_vars: Seq<Seq<char>>,
) -> Map<Seq<char>, Seq<char>> {
    with_pairs(
        if pass_environment {
            with_entries(Map::empty(), inherited)
        } else {
            Map::empty()
        },
        env_vars,
    )
}

/// A host and a port.
pub fn bind_address(host: &str, port: u16) -> (r: String)
    ensures
        r@ == host@ + ":"@ + decimal(port as nat),
{
    let mut r = joined(host, ":");
    push_decimal(&mut r, port);
    r
}

impl ServerInvocation {
    /// The server to run and the settings of the HTTP server in front of it. The environment of
    /// the proxy counts only where it is passed through.
    pub fn plan(self, inherited: Vec<(String, String)>) -> (r: (
        StdioServerParameters,
        HttpServerSettings,
    ))
        ensures
            r.0.command == self.command,
            r.0.args == self.args,
            r.0.env@ == server_env(self.pass_environment, inherited@, views(self.env_vars@)),
            r.0.log_url == self.log_url,
            r.0.access_token == self.access_token,
            r.1.bind_addr@ == self.host@ + ":"@ + decimal(self.port as nat),
            r.1.keep_alive matches Some(span) && duration_nanos(span) == KEEP_ALIVE_SECONDS
                * 1_000_000_000,
    {
        let mut env = StringMap::new();
        if self.pass_environment {
            insert_entries(&mut env, &inherited);
        }
        insert_pairs(&mut env, &self.env_vars);
        let bind_addr = bind_address(self.host.as_str(), self.port);
        (
            StdioServerParameters {
                command: self.command,
                args: self.args,
                env,
                log_url: self.log_url,
                access_token: self.access_token,
            },
            HttpServerSettings { bind_addr, keep_alive: Some(whole_seconds(KEEP_ALIVE_SECONDS)) },
        )
    }
}

/// How deleting the stored authentication ended.
pub enum Deletion {
    Deleted,
    NotFound,
    Failed(String),
}

/// What the user is told about a deletion: a line on the console, or an error, and the exit code
/// of the program.
pub struct DeletionReport {
    pub console: Option<String>,
    pub error: Option<String>,
    pub exit_code: i32,
}

/// What the user is told about the deletion of a directory. It is no failure that there was
/// nothing to delete.
pub fn deletion_report(directory: &str, deletion: Deletion) -> (r: DeletionReport)
    ensures
        match deletion {
            Deletion::Deleted => r.console is None && r.error is None && r.exit_code == 0,
            Deletion::NotFound => {
                &&& r.console matches Some(text) && text@ == "Auth config not found at "@ + directory@
                &&& r.error is None && r.exit_code == 0
            },
            Deletion::Failed(error) => {
                &&& r.console is None && r.exit_code == 1
                &&& r.error matches Some(text) && text@ == "Failed to delete auth config: "@ + error@
            },
        },
{
    match deletion {
        Deletion::Deleted => DeletionReport { console: None, error: None, exit_code: 0 },
        Deletion::NotFound => DeletionReport {
            console: Some(joined("Auth config not found at ", directory)),
            error: None,
            exit_code: 0,
        },
        Deletion::Failed(error) => DeletionReport {
            console: None,
            error: Some(joined("Failed to delete auth config: ", error.as_str())),
            exit_code: 1,
        },
    }
}

/// Whether a key stands at the front of the pair with this number.
pub open spec fn pair_key(list: Seq<Seq<char>>, pair: int, key: Seq<char>) -> bool {
    0 <= pair && 2 * pair + 1 < list.len() && list[2 * pair] == key
}

/// Variables that the command line does not name keep what they were.
pub proof fn law_unnamed_variables_stay(
    map: Map<Seq<char>, Seq<char>>,
    list: Seq<Seq<char>>,
    key: Seq<char>,
)
    requires
        forall|pair: int| !pair_key(list, pair, key),
    ensures
        with_pairs(map, list).contains_key(key) == map.contains_key(key),
        map.contains_key(key) ==> with_pairs(map, list)[key] == map[key],
    decreases list.len(),
{
    if list.len() >= 2 {
        assert(!pair_key(list, 0, key));
        assert forall|pair: int| !pair_key(list.skip(2), pair, key) by {
            if pair >= 0 {
                assert(!pair_key(list, pair + 1, key));
            }
        }
        law_unnamed_variables_stay(map.insert(list[0], list[1]), list.skip(2), key);
    }
}

/// A variable that the command line names has the value that it names last, whatever the
/// environment has.
pub proof fn law_named_variables_win(
    map: Map<Seq<char>, Seq<char>>,
    list: Seq<Seq<char>>,
    pair: int,
    key: Seq<char>,
)
    requires
        pair_key(list, pair, key),
        forall|later: int| later > pair ==> !pair_key(list, later, key),
    ensures
        with_pairs(map, list).contains_key(key),
        with_pairs(map, list)[key] == list[2 * pair + 1],
    decreases list.len(),
{
    let next = map.insert(list[0], list[1]);
    assert forall|later: int| later > pair - 1 implies !pair_key(list.skip(2), later, key) by {
        if later >= 0 {
            assert(!pair_key(list, later + 1, key));
        }
    }
    if pair == 0 {
        assert forall|later: int| !pair_key(list.skip(2), later, key) by {}
        law_unnamed_variables_stay(next, list.skip(2), key);
    } else {
        assert(pair_key(list.skip(2), pair - 1, key));
        law_named_variables_win(next, list.skip(2), pair - 1, key);
    }
}

/// Without passing the environment through, the variables of a server are those of the command
/// line and no others, whatever the environment of the proxy is.
pub proof fn law_environment_is_kept_out(
    inherited: Seq<(String, String)>,
    env_vars: Seq<Seq<char>>,
    key: Seq<char>,
)
    ensures
        server_env(false, inherited, env_vars).contains_key(key) ==> exists|pair: int|
            pair_key(env_vars, pair, key),
{
    if forall|pair: int| !pair_key(env_vars, pair, key) {
        law_unnamed_variables_stay(Map::empty(), env_vars, key);
    }
}

/// One pair more at the end of a list sets its value over all that the list set before. A key
/// alone at the end sets nothing, and neither does an empty list.
pub proof fn law_pairs_are_set_in_turn(
    map: Map<Seq<char>, Seq<char>>,
    list: Seq<Seq<char>>,
    key: Seq<char>,
    value: Seq<char>,
)
    requires
        list.len() % 2 == 0,
    ensures
        with_pairs(map, list + seq![key, value]) == with_pairs(map, list).insert(key, value),
        with_pairs(map, list + seq![key]) == with_pairs(map, list),
        with_pairs(map, seq![]) == map,
    decreases list.len(),
{
    if list.len() == 0 {
        assert(list + seq![key, value] == seq![key, value]);
        assert(seq![key, value].skip(2).len() == 0);
        assert(list + seq![key] == seq![key]);
        reveal_with_fuel(with_pairs, 2);
    } else {
        let next = map.insert(list[0], list[1]);
        assert((list + seq![key, value]).skip(2) == list.skip(2) + seq![key, value]);
        assert((list + seq![key]).skip(2) == list.skip(2) + seq![key]);
        law_pairs_are_set_in_turn(next, list.skip(2), key, value);
    }
}

/// One entry more at the end of a list sets its value over all that the list set before. An empty
/// list sets nothing.
pub proof fn law_entries_are_set_in_turn(
    map: Map<Seq<char>, Seq<char>>,
    list: Seq<(String, String)>,
    entry: (String, String),
)
    ensures
        with_entries(map, list + seq![entry]) == with_entries(map, list).insert(
            entry.0@,
            entry.1@,
        ),
        with_entries(map, seq![]) == map,
    decreases list.len(),
{
    if list.len() == 0 {
        assert(list + seq![entry] == seq![entry]);
        assert(seq![entry].skip(1).len() == 0);
        reveal_with_fuel(with_entries, 2);
    } else {
        let next = map.insert(list[0].0@, list[0].1@);
        assert((list + seq![entry]).skip(1) == list.skip(1) + seq![entry]);
        law_entries_are_set_in_turn(next, list.skip(1), entry);
    }
}

/// A variable of a list has the value that the list gives it last.
pub proof fn law_last_entry_wins(
    map: Map<Seq<char>, Seq<char>>,
    list: Seq<(String, String)>,
    i: int,
)
    requires
        0 <= i < list.len(),
        forall|later: int| i < later < list.len() ==> (#[trigger] list[later]).0@ != list[i].0@,
    ensures
        with_entries(map, list).contains_key(list[i].0@),
        with_entries(map, list)[list[i].0@] == list[i].1@,
    decreases list.len(),
{
    let before = list.drop_last();
    assert(before + seq![list.last()] == list);
    law_entries_are_set_in_turn(map, before, list.last());
    if i < list.len() - 1 {
        assert(list[list.len() - 1].0@ != list[i].0@);
        assert forall|later: int| i < later < before.len() implies (#[trigger] before[later]).0@
            != before[i].0@ by {
            assert(before[later] == list[later]);
        }
        law_last_entry_wins(map, before, i);
    }
}

/// A list of entries gives no variable but those that it names.
pub proof fn law_other_variables_stay(
    map: Map<Seq<char>, Seq<char>>,
    list: Seq<(String, String)>,
    key: Seq<char>,
)
    requires
        forall|i: int| 0 <= i < list.len() ==> (#[trigger] list[i]).0@ != key,
    ensures
        with_entries(map, list).contains_key(key) == map.contains_key(key),
        map.contains_key(key) ==> with_entries(map, list)[key] == map[key],
    decreases list.len(),
{
    if list.len() > 0 {
        let before = list.drop_last();
        assert(before + seq![list.last()] == list);
        law_entries_are_set_in_turn(map, before, list.last());
        assert(list[list.len() - 1].0@ != key);
        assert forall|i: int| 0 <= i < before.len() implies (#[trigger] before[i]).0@ != key by {
            assert(before[i] == list[i]);
        }
        law_other_variables_stay(map, before, key);
    } else {
        law_entries_are_set_in_turn(map, list, arbitrary());
        assert(list == Seq::<(String, String)>::empty());
    }
}

/// Where the environment is passed through, a server gets every variable of the proxy that the
/// command line does not name, with the value that the environment gives it last.
pub proof fn law_environment_is_passed_through(
    inherited: Seq<(String, String)>,
    env_vars: Seq<Seq<char>>,
    i: int,
)
    requires
        0 <= i < inherited.len(),
        forall|later: int|
            i < later < inherited.len() ==> (#[trigger] inherited[later]).0@ != inherited[i].0@,
        forall|p: int|
            0 <= p < env_vars.len() && p % 2 == 0 && p + 1 < env_vars.len() ==> #[trigger] env_vars[p]
                != inherited[i].0@,
    ensures
        server_env(true, inherited, env_vars).contains_key(inherited[i].0@),
        server_env(true, inherited, env_vars)[inherited[i].0@] == inherited[i].1@,
{
    law_last_entry_wins(Map::empty(), inherited, i);
    let key = inherited[i].0@;
    assert forall|pair: int| !pair_key(env_vars, pair, key) by {
        if 0 <= pair && 2 * pair + 1 < env_vars.len() {
            assert(env_vars[2 * pair] != key);
        }
    }
    law_unnamed_variables_stay(with_entries(Map::empty(), inherited), env_vars, key);
}

/// The environment of a server is built from nothing but what is passed through and what the
/// command line names, which is set over it in turn. Where nothing is passed through, the
/// environment of the proxy makes no difference.
pub proof fn law_server_env_is_built_up(
    inherited: Seq<(String, String)>,
    other: Seq<(String, String)>,
    entry: (String, String),
    pass: bool,
    env_vars: Seq<Seq<char>>,
    key: Seq<char>,
    value: Seq<char>,
)
    requires
        env_vars.len() % 2 == 0,
    ensures
        server_env(pass, inherited, env_vars + seq![key, value]) == server_env(
            pass,
            inherited,
            env_vars,
        ).insert(key, value),
        server_env(pass, inherited, env_vars + seq![key]) == server_env(pass, inherited, env_vars),
        server_env(true, inherited + seq![entry], seq![]) == server_env(
            true,
            inherited,
            seq![],
        ).insert(entry.0@, entry.1@),
        server_env(true, seq![], seq![]).dom() == Set::<Seq<char>>::empty(),
        server_env(false, inherited, env_vars) == server_env(false, other, env_vars),
        server_env(false, inherited, seq![]).dom() == Set::<Seq<char>>::empty(),
{
    let start = if pass {
        with_entries(Map::empty(), inherited)
    } else {
        Map::empty()
    };
    law_pairs_are_set_in_turn(start, env_vars, key, value);
    law_entries_are_set_in_turn(Map::empty(), inherited, entry);
    let all = with_entries(Map::empty(), inherited);
    let more = with_entries(Map::empty(), inherited + seq![entry]);
    let nothing: Seq<Seq<char>> = seq![];
    law_pairs_are_set_in_turn(all, nothing, key, value);
    law_pairs_are_set_in_turn(more, nothing, key, value);
    law_pairs_are_set_in_turn(Map::empty(), nothing, key, value);
}

/// The command line is the command, and then its arguments, whether or not the command stands on
/// its own. There is a command unless there is nothing at all.
pub proof fn law_command_line_is_used_up(cli: CliArguments)
    ensures
        cli.command_or_url matches Some(command) ==> cli.command() == Some(command@)
            && cli.command_args() == views(cli.args@),
        cli.command_or_url is None ==> {
            &&& cli.command() is Some <==> cli.args@.len() > 0
            &&& cli.args@.len() > 0 ==> seq![cli.command()->Some_0] + cli.command_args() == views(
                cli.args@,
            )
        },
{
    if cli.command_or_url is None && cli.args@.len() > 0 {
        assert(seq![cli.args@[0]@] + views(cli.args@).skip(1) == views(cli.args@));
    }
}

/// A command is a URL exactly where something stands behind `http://` or `https://`, be it
/// nothing.
pub proof fn law_urls(command: Seq<char>, behind: Seq<char>)
    ensures
        url("http://"@ + behind),
        url("https://"@ + behind),
        url(command) ==> {
            ||| command.len() >= 7 && command.take(7) == "http://"@
            ||| command.len() >= 8 && command.take(8) == "https://"@
        },
{
    reveal_strlit("http://");
    reveal_strlit("https://");
    assert("http://"@.len() == 7);
    assert("https://"@.len() == 8);
    law_begins_with(command, "http://"@, behind);
    law_begins_with(command, "https://"@, behind);
    if command.len() >= 7 {
        assert(command.subrange(0, 7) == command.take(7));
    }
    if command.len() >= 8 {
        assert(command.subrange(0, 8) == command.take(8));
    }
}

/// A URL asks for a client of that URL, the word `reset` for a reset, and everything else for a
/// server with that command. Nothing of the command line that concerns it is lost or changed.
pub proof fn law_invocations(cli: CliArguments, command: Seq<char>, r: Invocation)
    requires
        asked_for(cli, command, r),
    ensures
        r is Client <==> (command.len() >= 7 && command.take(7) == "http://"@) || (command.len()
            >= 8 && command.take(8) == "https://"@),
        r is Reset <==> command == "reset"@,
        r matches Invocation::Client(config) ==> {
            &&& config.url@ == command
            &&& config.headers@ == with_pairs(Map::empty(), views(cli.headers@))
        },
        r matches Invocation::Server(server) ==> {
            &&& server.command@ == command
            &&& views(server.args@) == cli.command_args()
            &&& server.env_vars@ == cli.env_vars@
            &&& server.pass_environment == cli.pass_environment
            &&& server.port == cli.port
            &&& server.host@ == cli.host@
            &&& server.log_url == cli.log_url
            &&& server.access_token == cli.access_token
        },
{
    reveal_strlit("reset");
    assert("reset"@.len() == 5);
    law_urls(command, seq![]);
    reveal_strlit("http://");
    reveal_strlit("https://");
    assert("http://"@.len() == 7);
    assert("https://"@.len() == 8);
    if command.len() >= 7 && command.take(7) == "http://"@ {
        assert(command == "http://"@ + command.skip(7));
        law_urls(command, command.skip(7));
    }
    if command.len() >= 8 && command.take(8) == "https://"@ {
        assert(command == "https://"@ + command.skip(8));
        law_urls(command, command.skip(8));
    }
}

} // verus!
