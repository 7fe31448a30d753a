use mimofan_core::mcp_server::{
    build_exposed_tools, default_expose_tools, listed_tools, resolve_settings, resource_entries,
    resolve_tool_call, route_method, ExposedTool, McpRoute, RpcError, SessionSummary,
};
use mimofan_core::json::JsonValue;
use mimofan_core::memory_service::{search_request, store_request, MemoryServiceTarget};

#[test]
fn exposed_tools_map_to_internal_names() {
    let names: Vec<String> = vec![" file_read ", "", "shell", "search", "mimofan", "custom_tool", "  "]
        .into_iter()
        .map(String::from)
        .collect();
    let tools = build_exposed_tools(&names);
    let pairs: Vec<(&str, &str)> = tools.iter().map(|t| (t.public.as_str(), t.internal.as_str())).collect();
    assert_eq!(
        pairs,
        vec![
            ("file_read", "read_file"),
            ("shell", "exec_shell"),
            ("search", "grep_files"),
            ("mimofan", "mimofan"),
            ("custom_tool", "custom_tool"),
        ]
    );
}

#[test]
fn defaults_and_settings() {
    let defaults = default_expose_tools();
    assert_eq!(defaults.len(), 14);
    assert_eq!(defaults[0], "file_read");
    assert_eq!(defaults[13], "run_poc");
    let (tools, approval) = resolve_settings(None, None);
    assert_eq!(tools, defaults);
    assert!(!approval);
    let (tools, approval) = resolve_settings(Some(vec!["shell".to_string()]), Some(true));
    assert_eq!(tools, vec!["shell".to_string()]);
    assert!(approval);
}

#[test]
fn repeated_public_names_are_listed_once() {
    let tools = vec![
        ExposedTool { public: "a".to_string(), internal: "x".to_string() },
        ExposedTool { public: "b".to_string(), internal: "y".to_string() },
        ExposedTool { public: "a".to_string(), internal: "z".to_string() },
    ];
    assert_eq!(listed_tools(&tools), vec![0, 1]);
}

#[test]
fn methods_are_routed() {
    assert_eq!(route_method("initialize"), McpRoute::Initialize);
    assert_eq!(route_method("tools/list"), McpRoute::ListTools);
    assert_eq!(route_method("tools/call"), McpRoute::CallTool);
    assert_eq!(route_method("resources/list"), McpRoute::ListResources);
    assert_eq!(route_method("ping"), McpRoute::Ping);
    assert_eq!(route_method("notifications/initialized"), McpRoute::Ignore);
    assert_eq!(
        route_method("tools/destroy"),
        McpRoute::NotFound { code: -32601, message: "Method not found: tools/destroy".to_string() }
    );
}

#[test]
fn resources_list_workspace_then_sessions() {
    let sessions = vec![SessionSummary { id: "s1".to_string(), title: "First".to_string(), message_count: 12 }];
    let entries = resource_entries("/work", &sessions);
    assert_eq!(entries.len(), 2);
    assert_eq!(entries[0].uri, "file:///work");
    assert_eq!(entries[0].name, "workspace");
    assert_eq!(entries[0].mime_type, "inode/directory");
    assert_eq!(entries[1].uri, "mimofan://session/s1");
    assert_eq!(entries[1].name, "First");
    assert_eq!(entries[1].description, "12 messages");
    assert_eq!(entries[1].mime_type, "application/json");
}

#[test]
fn memory_service_requests() {
    let target = MemoryServiceTarget::new("https://mem.test//", Some("k1"));
    assert_eq!(target.base_url, "https://mem.test");
    assert_eq!(target.search_url(), "https://mem.test/v1/memories/search");
    assert_eq!(target.store_url(), "https://mem.test/v1/memories");
    assert_eq!(target.health_url(), "https://mem.test/health");
    assert_eq!(target.authorization(), Some("Bearer k1".to_string()));
    let anonymous = MemoryServiceTarget::new("http://x", None);
    assert_eq!(anonymous.authorization(), None);
    let search = search_request("rust", 5);
    assert_eq!(search.query, "rust");
    assert_eq!(search.limit, Some(5));
    assert!(search.tags.is_empty());
    let store = store_request("fact", &["a".to_string()]);
    assert_eq!(store.content, "fact");
    assert_eq!(store.tags, vec!["a".to_string()]);
}

fn obj(entries: Vec<(&str, JsonValue)>) -> JsonValue {
    JsonValue::Object(entries.into_iter().map(|(k, v)| (k.to_string(), v)).collect())
}

fn tools() -> Vec<ExposedTool> {
    build_exposed_tools(&["file_read".to_string(), "mimofan".to_string()])
}

#[test]
fn tool_call_is_refused_for_each_reason_in_turn() {
    let err = |r: Result<_, RpcError>| r.err().map(|e| (e.code, e.message));
    assert_eq!(
        err(resolve_tool_call(JsonValue::Null, &tools(), false)),
        Some((-32602, "Invalid params for tools/call".to_string()))
    );
    assert_eq!(
        err(resolve_tool_call(obj(vec![("name", JsonValue::Number("1".to_string()))]), &tools(), false)),
        Some((-32602, "Missing tool name".to_string()))
    );
    let named = || obj(vec![("name", JsonValue::Text("file_read".to_string()))]);
    assert_eq!(
        err(resolve_tool_call(named(), &tools(), true)),
        Some((-32001, "Approval required. Resend with approved=true.".to_string()))
    );
    assert_eq!(
        err(resolve_tool_call(obj(vec![("name", JsonValue::Text("nope".to_string()))]), &tools(), false)),
        Some((-32602, "Tool not exposed: nope".to_string()))
    );
}

#[test]
fn tool_call_names_the_internal_tool_and_its_arguments() {
    let plan = resolve_tool_call(
        obj(vec![
            ("name", JsonValue::Text("file_read".to_string())),
            ("approved", JsonValue::Bool(true)),
            ("arguments", obj(vec![("path", JsonValue::Text("a.rs".to_string()))])),
        ]),
        &tools(),
        true,
    )
    .unwrap();
    assert_eq!(plan.internal, "read_file");
    assert!(!plan.native);
    match plan.arguments {
        JsonValue::Object(entries) => {
            assert_eq!(entries.len(), 1);
            assert_eq!(entries[0].0, "path");
        }
        _ => panic!("arguments should be an object"),
    }
    let native = resolve_tool_call(obj(vec![("name", JsonValue::Text("mimofan".to_string()))]), &tools(), false).unwrap();
    assert!(native.native);
    assert!(matches!(native.arguments, JsonValue::Object(ref e) if e.is_empty()));
}
