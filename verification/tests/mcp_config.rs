use mimofan_core::mcp::config::{
    expand_env_in_string, McpServerConfig, McpServerOAuthConfig, McpTimeouts,
};

fn env(pairs: &[(&str, &str)]) -> Vec<(String, String)> {
    pairs
        .iter()
        .map(|(k, v)| (k.to_string(), v.to_string()))
        .collect()
}

fn test_config() -> McpServerConfig {
    McpServerConfig {
        command: None,
        args: Vec::new(),
        env: Vec::new(),
        cwd: None,
        url: None,
        transport: None,
        connect_timeout: None,
        execute_timeout: None,
        read_timeout: None,
        disabled: false,
        enabled: true,
        required: false,
        enabled_tools: Vec::new(),
        disabled_tools: Vec::new(),
        headers: Vec::new(),
        env_headers: Vec::new(),
        bearer_token_env_var: None,
        scopes: Vec::new(),
        oauth: None,
        oauth_resource: None,
    }
}

#[test]
fn expand_basic_var() {
    let e = env(&[("MIMOFAN_TEST_TOKEN", "s3cr3t")]);
    assert_eq!(
        expand_env_in_string("Bearer ${MIMOFAN_TEST_TOKEN}", &e),
        "Bearer s3cr3t"
    );
}

#[test]
fn expand_missing_var_becomes_empty() {
    let e = env(&[]);
    assert_eq!(expand_env_in_string("x${MIMOFAN_TEST_UNSET_VAR}y", &e), "xy");
}

#[test]
fn expand_default_when_unset() {
    let e = env(&[]);
    assert_eq!(
        expand_env_in_string("${MIMOFAN_TEST_DEFAULT_UNSET:-fallback}", &e),
        "fallback"
    );
}

#[test]
fn expand_default_when_empty() {
    let e = env(&[("MIMOFAN_TEST_EMPTY", "")]);
    assert_eq!(
        expand_env_in_string("${MIMOFAN_TEST_EMPTY:-fallback}", &e),
        "fallback"
    );
}

#[test]
fn expand_default_not_used_when_set() {
    let e = env(&[("MIMOFAN_TEST_SET", "real")]);
    assert_eq!(expand_env_in_string("${MIMOFAN_TEST_SET:-fallback}", &e), "real");
}

#[test]
fn expand_leaves_plain_text_and_unterminated_placeholder() {
    let e = env(&[]);
    assert_eq!(expand_env_in_string("no vars here", &e), "no vars here");
    // Unterminated `${` is left verbatim.
    assert_eq!(expand_env_in_string("bad ${VAR text", &e), "bad ${VAR text");
    // Lower-case / invalid name is left verbatim.
    assert_eq!(expand_env_in_string("${var}", &e), "${var}");
}

#[test]
fn expand_multiple_placeholders() {
    let e = env(&[("MIMOFAN_A", "1"), ("MIMOFAN_B", "2")]);
    assert_eq!(expand_env_in_string("${MIMOFAN_A}-${MIMOFAN_B}", &e), "1-2");
}

#[test]
fn server_config_expands_all_string_fields() {
    let e = env(&[
        ("MIMOFAN_SRV_TOKEN", "tok"),
        ("MIMOFAN_SRV_URL", "https://example.com/mcp"),
        ("MIMOFAN_SRV_HOME", "/opt/srv"),
    ]);
    let mut cfg = test_config();
    cfg.command = Some("${MIMOFAN_SRV_HOME}/bin/run".to_string());
    cfg.args = vec!["--token".into(), "${MIMOFAN_SRV_TOKEN}".into()];
    cfg.env
        .push(("API_KEY".into(), "${MIMOFAN_SRV_TOKEN}".into()));
    cfg.url = Some("${MIMOFAN_SRV_URL}".to_string());
    cfg.cwd = Some("${MIMOFAN_SRV_HOME}/work".to_string());
    cfg.headers
        .push(("Authorization".into(), "Bearer ${MIMOFAN_SRV_TOKEN}".into()));
    cfg.oauth_resource = Some("${MIMOFAN_SRV_URL}/resource".to_string());
    cfg.scopes = vec!["${MIMOFAN_SRV_TOKEN:-default_scope}".into()];

    let expanded = cfg.expand_env_vars(&e);
    assert_eq!(expanded.command.as_deref(), Some("/opt/srv/bin/run"));
    assert_eq!(expanded.args, vec!["--token", "tok"]);
    assert_eq!(
        expanded
            .env
            .iter()
            .find(|(k, _)| k == "API_KEY")
            .map(|(_, v)| v.as_str()),
        Some("tok")
    );
    assert_eq!(expanded.url.as_deref(), Some("https://example.com/mcp"));
    assert_eq!(expanded.cwd.as_deref(), Some("/opt/srv/work"));
    assert_eq!(
        expanded
            .headers
            .iter()
            .find(|(k, _)| k == "Authorization")
            .map(|(_, v)| v.as_str()),
        Some("Bearer tok")
    );
    assert_eq!(
        expanded.oauth_resource.as_deref(),
        Some("https://example.com/mcp/resource")
    );
    assert_eq!(expanded.scopes, vec!["tok"]);
    // Original is unchanged (clone semantics).
    assert_eq!(cfg.url.as_deref(), Some("${MIMOFAN_SRV_URL}"));
}

#[test]
fn expand_is_idempotent_on_constant_config() {
    let e = env(&[]);
    let mut cfg = test_config();
    cfg.command = Some("fixed-cmd".to_string());
    cfg.url = Some("https://fixed.example.com/mcp".to_string());
    cfg.headers.push(("X".into(), "plain".into()));
    let once = cfg.expand_env_vars(&e);
    let twice = once.expand_env_vars(&e);
    assert_eq!(once, twice);
}

#[test]
fn expansion_twice_matches_once_when_nothing_is_left() {
    let e = env(&[("A", "x"), ("B", "")]);
    for s in ["${A}", "a${B:-${A}}b", "${bad}", "plain", "${A:-y}${C}"] {
        let once = expand_env_in_string(s, &e);
        if !once.contains("${") {
            assert_eq!(expand_env_in_string(&once, &e), once);
        }
    }
}

#[test]
fn expansion_is_not_idempotent_when_a_value_holds_a_placeholder() {
    let e = env(&[("A", "${B}"), ("B", "x")]);
    let once = expand_env_in_string("${A}", &e);
    assert_eq!(once, "${B}");
    assert_eq!(expand_env_in_string(&once, &e), "x");
}

#[test]
fn default_of_placeholder_is_expanded_and_first_env_pair_wins() {
    let e = env(&[("X", "1"), ("X", "2")]);
    assert_eq!(expand_env_in_string("${MISSING:-<${X}>}", &e), "<1>");
    assert_eq!(expand_env_in_string("${MISSING:-${OTHER:-${X}}}!", &e), "1!");
    assert_eq!(expand_env_in_string("${MISSING:-<x>}${X}", &e), "<x>1");
    assert_eq!(expand_env_in_string("${:-a}", &e), "${:-a}");
    assert_eq!(expand_env_in_string("${}", &e), "${}");
    assert_eq!(expand_env_in_string("${X:-{a}}", &e), "1");
    assert_eq!(expand_env_in_string("${MISSING:-{a}}", &e), "{a}");
    assert_eq!(expand_env_in_string("${9X}", &e), "${9X}");
}

#[test]
fn tool_enablement_and_timeouts() {
    let mut cfg = test_config();
    assert!(cfg.is_enabled());
    assert!(cfg.is_tool_enabled("anything"));
    cfg.disabled_tools = vec!["rm".into()];
    assert!(!cfg.is_tool_enabled("rm"));
    cfg.enabled_tools = vec!["ls".into()];
    assert!(cfg.is_tool_enabled("ls"));
    assert!(!cfg.is_tool_enabled("cat"));
    cfg.disabled = true;
    assert!(!cfg.is_enabled());
    assert!(!cfg.is_tool_enabled("ls"));
    let global = McpTimeouts::default();
    assert_eq!(global.connect_timeout, 10);
    assert_eq!(global.execute_timeout, 60);
    assert_eq!(global.read_timeout, 120);
    cfg.read_timeout = Some(5);
    assert_eq!(cfg.effective_read_timeout(&global), 5);
    assert_eq!(cfg.effective_connect_timeout(&global), 10);
    assert_eq!(cfg.effective_execute_timeout(&global), 60);
    cfg.oauth = Some(McpServerOAuthConfig { client_id: Some("c".into()) });
    let e = env(&[]);
    assert_eq!(cfg.expand_env_vars(&e).oauth, cfg.oauth);
}

#[test]
fn nested_default_is_expanded_once() {
    let e = env(&[("MIMOFAN_T_B", "x")]);
    assert_eq!(expand_env_in_string("${MIMOFAN_T_A:-${MIMOFAN_T_B}}", &e), "x");
    let e = env(&[("MIMOFAN_T_B", "${MIMOFAN_T_C}"), ("MIMOFAN_T_C", "y")]);
    assert_eq!(expand_env_in_string("${MIMOFAN_T_A:-${MIMOFAN_T_B}}", &e), "${MIMOFAN_T_C}");
}

#[test]
fn expanding_a_config_twice_keeps_malformed_and_unclosed_placeholders() {
    let e = env(&[("HOME_DIR", "/opt"), ("TOK", "t")]);
    let mut cfg = test_config();
    cfg.command = Some("${HOME_DIR}/run ${var} ${}".to_string());
    cfg.args = vec!["--token=${TOK}".into(), "${:-x}".into(), "tail ${OPEN".into()];
    cfg.url = Some("https://${HOST:-example.com}/mcp".to_string());
    cfg.headers.push(("X".into(), "${9}".into()));
    let once = cfg.expand_env_vars(&e);
    assert_eq!(once.command.as_deref(), Some("/opt/run ${var} ${}"));
    assert_eq!(once.args, vec!["--token=t", "${:-x}", "tail ${OPEN"]);
    assert_eq!(once.url.as_deref(), Some("https://example.com/mcp"));
    let twice = once.expand_env_vars(&e);
    assert_eq!(once, twice);
}
