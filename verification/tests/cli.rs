use rmcp_proxy::cli::{
    bind_address, deletion_report, insert_entries, insert_pairs, invocation, CliArguments,
    CliError, Deletion, Invocation, ServerInvocation,
};
use rmcp_proxy::string_map::StringMap;
use std::time::Duration;

fn texts(list: &[&str]) -> Vec<String> {
    list.iter().map(|s| s.to_string()).collect()
}

fn arguments(command: Option<&str>, args: &[&str]) -> CliArguments {
    CliArguments {
        command_or_url: command.map(|s| s.to_string()),
        headers: texts(&["X-One", "1", "X-Two", "2", "X-One", "3", "X-Alone"]),
        args: texts(args),
        env_vars: texts(&["KEY", "VALUE", "ANOTHER_KEY", "ANOTHER_VALUE"]),
        pass_environment: false,
        port: 8080,
        host: "127.0.0.1".to_string(),
        log_url: Some("http://logs/in".to_string()),
        access_token: None,
    }
}

fn server(cli: CliArguments) -> ServerInvocation {
    match invocation(cli) {
        Ok(Invocation::Server(server)) => server,
        _ => panic!("the command line asks for a server"),
    }
}

fn environment() -> Vec<(String, String)> {
    vec![
        ("HOME".to_string(), "/root".to_string()),
        ("KEY".to_string(), "inherited".to_string()),
    ]
}

#[test]
fn urls_are_for_the_client() {
    for url in ["http://host/sse", "https://host", "http://", "https://"] {
        match invocation(arguments(Some(url), &["ignored"])) {
            Ok(Invocation::Client(config)) => {
                assert_eq!(config.url, url);
                assert_eq!(config.headers.get("X-One"), Some("3".to_string()));
                assert_eq!(config.headers.get("X-Two"), Some("2".to_string()));
                assert_eq!(config.headers.get("X-Alone"), None);
            }
            _ => panic!("a URL is for the client"),
        }
    }
    assert!(matches!(
        invocation(arguments(None, &["https://host"])),
        Ok(Invocation::Client(_))
    ));
}

#[test]
fn other_schemes_are_commands() {
    for command in ["ftp://host", "HTTP://host", "http:/host", " http://host"] {
        assert_eq!(server(arguments(Some(command), &[])).command, command);
    }
}

#[test]
fn reset_is_a_word_of_its_own() {
    assert!(matches!(invocation(arguments(Some("reset"), &[])), Ok(Invocation::Reset)));
    assert!(matches!(invocation(arguments(None, &["reset"])), Ok(Invocation::Reset)));
    assert_eq!(server(arguments(Some("resets"), &[])).command, "resets");
    assert_eq!(server(arguments(Some("Reset"), &[])).command, "Reset");
}

#[test]
fn command_with_options() {
    let server = server(arguments(Some("your-command"), &[]));
    assert_eq!(server.command, "your-command");
    assert_eq!(server.args, Vec::<String>::new());
    let (params, settings) = server.plan(environment());
    assert_eq!(params.command, "your-command");
    assert_eq!(params.env.get("KEY"), Some("VALUE".to_string()));
    assert_eq!(params.env.get("ANOTHER_KEY"), Some("ANOTHER_VALUE".to_string()));
    assert_eq!(params.env.get("HOME"), None);
    assert_eq!(params.log_url, Some("http://logs/in".to_string()));
    assert_eq!(params.access_token, None);
    assert_eq!(settings.bind_addr, "127.0.0.1:8080");
    assert_eq!(settings.keep_alive, Some(Duration::from_millis(15_000)));
}

#[test]
fn command_behind_the_dashes() {
    let cli = arguments(None, &["your-command", "--arg1", "value1", "--arg2", "value2"]);
    let server = server(cli);
    assert_eq!(server.command, "your-command");
    assert_eq!(server.args, texts(&["--arg1", "value1", "--arg2", "value2"]));
}

#[test]
fn command_and_arguments_behind_the_dashes() {
    let server = server(arguments(Some("npx"), &["-y", "server"]));
    assert_eq!(server.command, "npx");
    assert_eq!(server.args, texts(&["-y", "server"]));
}

#[test]
fn command_is_required() {
    match invocation(arguments(None, &[])) {
        Err(error) => {
            assert_eq!(error, CliError::MissingCommand);
            assert_eq!(error.message(), "Error: command or URL is required");
            assert_eq!(error.exit_code(), 1);
        }
        Ok(_) => panic!("there is no command"),
    }
}

#[test]
fn command_line_overrides_the_environment() {
    let mut cli = arguments(Some("cmd"), &[]);
    cli.pass_environment = true;
    let (params, _) = server(cli).plan(environment());
    assert_eq!(params.env.get("HOME"), Some("/root".to_string()));
    assert_eq!(params.env.get("KEY"), Some("VALUE".to_string()));
    assert_eq!(params.env.to_list().len(), 3);
}

#[test]
fn environment_is_kept_out() {
    let (params, _) = server(arguments(Some("cmd"), &[])).plan(environment());
    assert_eq!(params.env.get("HOME"), None);
    assert_eq!(params.env.to_list().len(), 2);
}

#[test]
fn pairs_and_entries() {
    let mut map = StringMap::new();
    insert_entries(&mut map, &environment());
    insert_pairs(&mut map, &texts(&["KEY", "1", "KEY", "2", "LEFT"]));
    assert_eq!(map.get("HOME"), Some("/root".to_string()));
    assert_eq!(map.get("KEY"), Some("2".to_string()));
    assert_eq!(map.get("LEFT"), None);
    insert_pairs(&mut map, &Vec::new());
    assert_eq!(map.to_list().len(), 2);
}

#[test]
fn bind_addresses() {
    assert_eq!(bind_address("0.0.0.0", 0), "0.0.0.0:0");
    assert_eq!(bind_address("[::1]", 65535), "[::1]:65535");
}

#[test]
fn deletions_are_reported() {
    let deleted = deletion_report("\"/a\"", Deletion::Deleted);
    assert_eq!((deleted.console, deleted.error, deleted.exit_code), (None, None, 0));
    let missing = deletion_report("\"/a\"", Deletion::NotFound);
    assert_eq!(missing.console, Some("Auth config not found at \"/a\"".to_string()));
    assert_eq!((missing.error, missing.exit_code), (None, 0));
    let failed = deletion_report("\"/a\"", Deletion::Failed("denied".to_string()));
    assert_eq!(failed.error, Some("Failed to delete auth config: denied".to_string()));
    assert_eq!((failed.console, failed.exit_code), (None, 1));
}
