use rmcp_proxy::sse_client::{
    probe_request, unexpected_text, ClientAction, ClientConnection, ClientEvent, ClientPhase, LocalSseClientConfig,
};
use rmcp_proxy::string_map::StringMap;

#[test]
fn probe_carries_the_headers() {
    let mut headers = StringMap::new();
    headers.insert("X-One".to_string(), "1".to_string());
    headers.insert("X-Two".to_string(), "2".to_string());
    let config = LocalSseClientConfig { url: "http://host/sse".to_string(), headers };
    let probe = probe_request(&config);
    assert_eq!(probe.url, "http://host/sse");
    assert_eq!(
        probe.headers,
        vec![("X-One".to_string(), "1".to_string()), ("X-Two".to_string(), "2".to_string())]
    );
    assert_eq!(probe.timeout, 30);
}

#[test]
fn open_server_lets_the_client_in() {
    let mut connection = ClientConnection::new();
    assert_eq!(connection.phase, ClientPhase::Probing);
    assert!(matches!(connection.step(ClientEvent::Answered(200)), ClientAction::Proceed));
    assert_eq!(connection.phase, ClientPhase::Connected { authenticated: false });
}

#[test]
fn authentication_that_was_done_is_used() {
    let mut connection = ClientConnection::new();
    assert!(matches!(connection.step(ClientEvent::Answered(401)), ClientAction::CoordinateAuth));
    assert_eq!(connection.phase, ClientPhase::Coordinating);
    assert!(matches!(connection.step(ClientEvent::AuthDone), ClientAction::Proceed));
    assert_eq!(connection.phase, ClientPhase::Connected { authenticated: true });
}

#[test]
fn authentication_is_handled() {
    let mut connection = ClientConnection::new();
    connection.step(ClientEvent::Answered(401));
    match connection.step(ClientEvent::HandleAuth { auth_url: "http://auth".to_string() }) {
        ClientAction::HandleAuth { auth_url } => assert_eq!(auth_url, "http://auth"),
        _ => panic!("the authentication is handled here"),
    }
    assert_eq!(connection.phase, ClientPhase::Authenticating);
    assert!(matches!(connection.step(ClientEvent::Authenticated), ClientAction::Proceed));
    assert_eq!(connection.phase, ClientPhase::Connected { authenticated: true });
}

#[test]
fn authentication_elsewhere_is_waited_for() {
    let mut connection = ClientConnection::new();
    connection.step(ClientEvent::Answered(401));
    match connection.step(ClientEvent::WaitForAuth { lock_file: "/tmp/lock".to_string() }) {
        ClientAction::WaitForAuth { lock_file } => assert_eq!(lock_file, "/tmp/lock"),
        _ => panic!("another instance handles the authentication"),
    }
    assert!(matches!(connection.step(ClientEvent::Authenticated), ClientAction::Proceed));
    assert_eq!(connection.phase, ClientPhase::Connected { authenticated: true });
}

#[test]
fn other_answers_are_errors() {
    assert_eq!(unexpected_text("500"), "Unexpected status code: 500");
    for (code, text) in [
        (500u16, "Unexpected status code: 500 Internal Server Error"),
        (403, "Unexpected status code: 403 Forbidden"),
        (201, "Unexpected status code: 201 Created"),
        (999, "Unexpected status code: 999 <unknown status code>"),
    ] {
        let mut connection = ClientConnection::new();
        match connection.step(ClientEvent::Answered(code)) {
            ClientAction::Fail { error } => assert_eq!(error, text),
            _ => panic!("the answer is an error"),
        }
        assert_eq!(connection.phase, ClientPhase::Rejected);
    }
}
