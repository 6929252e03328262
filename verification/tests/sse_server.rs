use rmcp_proxy::json::read_text;
use rmcp_proxy::logging::LogStreamType;
use rmcp_proxy::sse_server::{server_manager, SseServerManager, StdioServerParameters};
use rmcp_proxy::string_map::StringMap;

fn texts(list: &[&str]) -> Vec<String> {
    list.iter().map(|s| s.to_string()).collect()
}

#[test]
fn managers_log_where_they_can() {
    let local = SseServerManager::new(Some("http://logs/in".to_string()), None);
    assert!(local.log("x", LogStreamType::Command).remote.is_none());
    let remote =
        SseServerManager::new(Some("http://logs/in".to_string()), Some("secret".to_string()));
    let action = remote.log("x", LogStreamType::Command);
    assert_eq!(action.console, "[CMD] - x");
    assert_eq!(action.remote.unwrap().url, "http://logs/in");
}

#[test]
fn managers_follow_their_parameters() {
    let params = |log_url: Option<&str>, token: Option<&str>| StdioServerParameters {
        command: "npx".to_string(),
        args: Vec::new(),
        env: StringMap::new(),
        log_url: log_url.map(|s| s.to_string()),
        access_token: token.map(|s| s.to_string()),
    };
    let log = |p: &StdioServerParameters| server_manager(p).log("x", LogStreamType::Stdout);
    assert!(log(&params(Some("http://l"), Some("t"))).remote.is_some());
    assert!(log(&params(None, Some("t"))).remote.is_none());
    assert!(log(&params(Some("http://l"), None)).remote.is_none());
}

#[test]
fn starts_are_announced() {
    let manager = SseServerManager::new(None, None);
    let args = texts(&["a", "b"]);
    assert_eq!(
        manager.announce("cmd", &args, "T0").console,
        "[CMD] - {\"args\":[\"a\",\"b\"],\"command\":\"cmd\",\"event\":\"process_start\",\"timestamp\":\"T0\"}"
    );
}

#[test]
fn children_get_what_was_asked_for() {
    let manager =
        SseServerManager::new(Some("http://logs/in".to_string()), Some("secret".to_string()));
    let mut env = StringMap::new();
    env.insert("A".to_string(), "1".to_string());
    env.insert("B".to_string(), "2".to_string());
    env.insert("A".to_string(), "3".to_string());
    let launch = manager.create_child_process_with_logging("python", &texts(&["s.py"]), &env);
    assert_eq!(launch.program, "python");
    assert_eq!(launch.args, texts(&["s.py"]));
    assert!(!launch.inherit_env);
    assert_eq!(
        launch.env,
        vec![("A".to_string(), "3".to_string()), ("B".to_string(), "2".to_string())]
    );
    let message = launch.announcement.console.strip_prefix("[CMD] - ").unwrap().to_string();
    assert_eq!(read_text(&message, "event"), Some("process_start".to_string()));
    assert_eq!(read_text(&message, "command"), Some("python".to_string()));
    assert!(read_text(&message, "timestamp").unwrap().ends_with("+00:00"));
    let body = launch.announcement.remote.unwrap().body;
    assert_eq!(read_text(&body, "message"), Some(message));
    assert!(launch.logger.log("x", LogStreamType::Stdout).remote.is_some());
}
