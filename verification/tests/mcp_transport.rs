use mimofan_core::mcp::config::McpServerConfig;
use mimofan_core::mcp::transport::{
    find_sse_event_separator, is_legacy_sse_transport, is_mcp_stale_session_body,
    is_mcp_stale_session_error, mcp_headers_have_authorization, parse_sse_message_data,
    response_id_matches, sse_field_value, validate_mcp_transport, ResponseId,
};

fn config_with_transport(t: Option<&str>) -> McpServerConfig {
    McpServerConfig {
        command: None,
        args: Vec::new(),
        env: Vec::new(),
        cwd: None,
        url: Some("https://example.test/mcp".to_string()),
        transport: t.map(|s| s.to_string()),
        connect_timeout: None,
        execute_timeout: None,
        read_timeout: None,
        disabled: false,
        enabled: true,
        required: false,
        enabled_tools: Vec::new(),
        disabled_tools: Vec::new(),
        headers: Vec::new(),
        env_headers: Vec::new(),
        bearer_token_env_var: None,
        scopes: Vec::new(),
        oauth: None,
        oauth_resource: None,
    }
}

#[test]
fn sse_bodies_split_into_messages() {
    let body = "event: endpoint\ndata: /post\n\ndata: {\"a\":1}\r\n\r\n: comment\ndata:  first\ndata: second\n\nevent: message\ndata:   \n\n";
    let msgs = parse_sse_message_data(body);
    assert_eq!(
        msgs,
        vec![b"{\"a\":1}".to_vec(), b"first\nsecond".to_vec()]
    );
    assert!(parse_sse_message_data("").is_empty());
}

#[test]
fn sse_field_values() {
    assert_eq!(sse_field_value("data: x", "data:"), Some("x".to_string()));
    assert_eq!(sse_field_value("data:x", "data:"), Some("x".to_string()));
    assert_eq!(sse_field_value("data:  x", "data:"), Some(" x".to_string()));
    assert_eq!(sse_field_value("event: x", "data:"), None);
}

#[test]
fn event_separator_is_the_first_blank_line() {
    assert_eq!(find_sse_event_separator("ab\n\ncd"), Some((2, 2)));
    assert_eq!(find_sse_event_separator("ab\r\n\r\ncd\n\n"), Some((2, 4)));
    assert_eq!(find_sse_event_separator("é\n\n"), Some((2, 2)));
    assert_eq!(find_sse_event_separator("no separator\n"), None);
}

#[test]
fn transports_and_headers() {
    assert!(is_legacy_sse_transport(&config_with_transport(Some(" SSE "))));
    assert!(!is_legacy_sse_transport(&config_with_transport(Some("http"))));
    assert!(!is_legacy_sse_transport(&config_with_transport(None)));
    assert!(validate_mcp_transport(None).is_ok());
    assert!(validate_mcp_transport(Some("Sse")).is_ok());
    assert_eq!(
        validate_mcp_transport(Some("ws")).unwrap_err().message,
        "Unsupported MCP transport 'ws'. Supported values: sse"
    );
    let names = vec!["Accept".to_string(), " AUTHORIZATION ".to_string()];
    assert!(mcp_headers_have_authorization(&names));
    assert!(!mcp_headers_have_authorization(&vec!["Accept".to_string()]));
}

#[test]
fn stale_sessions_are_recognised() {
    assert!(is_mcp_stale_session_body("Session Expired"));
    assert!(is_mcp_stale_session_body("invalid session id"));
    assert!(!is_mcp_stale_session_body("session ok"));
    assert!(is_mcp_stale_session_error("MCP session expired; reconnect"));
    assert!(is_mcp_stale_session_error("MCP SSE POST send failed: Connection Reset by peer"));
    assert!(!is_mcp_stale_session_error("MCP SSE POST send failed: timeout"));
    assert!(!is_mcp_stale_session_error("server error 500"));
}

#[test]
fn response_ids_match_strings_and_numbers() {
    assert!(response_id_matches(Some(&ResponseId::Text("7".to_string())), "7"));
    assert!(response_id_matches(Some(&ResponseId::Unsigned(7)), "7"));
    assert!(!response_id_matches(Some(&ResponseId::Unsigned(70)), "7"));
    assert!(!response_id_matches(Some(&ResponseId::Other), "7"));
    assert!(!response_id_matches(None, "7"));
}
