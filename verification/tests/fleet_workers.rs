use mimofan_core::fleet::executor::{
    build_worker_exec_command_from_prompt, classify_worker_exit, map_exec_stream_line,
    FleetExecutor, WorkerEventPayload, WorkerExecSettings, WorkerHostState, WorkerStreamHost,
};
use mimofan_core::fleet::profile::{
    admit_profile_id, first_present, is_agent_profile_token_char, is_model_hint,
    reject_permission_expansion, resolve_agent_profile, trimmed_non_empty,
    validate_agent_profile_model_hint, validate_agent_profile_token, AgentProfileFields,
};
use mimofan_core::fleet::worker_runtime::{
    filter_tool_profile, fleet_host_kind_label, is_parallel_safe_read_only_tool, FleetHostKind,
    ToolProfile,
};

fn strings(v: &[&str]) -> Vec<String> {
    v.iter().map(|s| s.to_string()).collect()
}

#[test]
fn worker_command_carries_every_setting() {
    let exec = WorkerExecSettings {
        allowed_tools: strings(&["read_file", "grep_files"]),
        disallowed_tools: strings(&["exec_shell"]),
        max_turns: 12,
        append_system_prompt: "be brief".to_string(),
    };
    let cmd = build_worker_exec_command_from_prompt("mimofan", "do it".to_string(), &exec, Some("  m1  "));
    assert_eq!(cmd.program, "mimofan");
    assert_eq!(
        cmd.args,
        strings(&[
            "exec",
            "--auto",
            "--output-format",
            "stream-json",
            "--model",
            "m1",
            "--allowed-tools",
            "read_file,grep_files",
            "--disallowed-tools",
            "exec_shell",
            "--max-turns",
            "12",
            "--append-system-prompt",
            "be brief",
            "do it",
        ])
    );
}

#[test]
fn worker_command_skips_unset_settings() {
    let exec = WorkerExecSettings {
        allowed_tools: Vec::new(),
        disallowed_tools: Vec::new(),
        max_turns: u32::MAX,
        append_system_prompt: "   ".to_string(),
    };
    let cmd = build_worker_exec_command_from_prompt("bin", "task".to_string(), &exec, Some("  "));
    assert_eq!(
        cmd.args,
        strings(&["exec", "--auto", "--output-format", "stream-json", "task"])
    );
    let cmd = build_worker_exec_command_from_prompt("bin", "task".to_string(), &WorkerExecSettings::default(), None);
    assert_eq!(cmd.args.len(), 5);
}

#[test]
fn stream_lines_map_to_events() {
    assert_eq!(
        map_exec_stream_line(r#"  {"type":"tool_use","name":"grep","id":"c1"}  "#),
        Some(WorkerEventPayload::RunningTool {
            tool: "grep".to_string(),
            call_id: Some("c1".to_string())
        })
    );
    assert_eq!(
        map_exec_stream_line(r#"{"type":"tool_use"}"#),
        Some(WorkerEventPayload::RunningTool { tool: "tool".to_string(), call_id: None })
    );
    assert_eq!(map_exec_stream_line(r#"{"type":"content"}"#), Some(WorkerEventPayload::Running));
    assert_eq!(map_exec_stream_line(r#"{"type":"tool_result"}"#), Some(WorkerEventPayload::Running));
    assert_eq!(
        map_exec_stream_line(r#"{"type":"done"}"#),
        Some(WorkerEventPayload::Completed { exit_code: Some(0), summary: None })
    );
    assert_eq!(
        map_exec_stream_line(r#"{"type":"error","error":"boom"}"#),
        Some(WorkerEventPayload::Failed { reason: "boom".to_string(), recoverable: false })
    );
    assert_eq!(
        map_exec_stream_line(r#"{"type":"error"}"#),
        Some(WorkerEventPayload::Failed {
            reason: "worker reported an error".to_string(),
            recoverable: false
        })
    );
    assert_eq!(map_exec_stream_line(r#"{"type":"metadata"}"#), None);
    assert_eq!(map_exec_stream_line(r#"{"type":3}"#), None);
    assert_eq!(map_exec_stream_line("not json"), None);
}

#[test]
fn exits_are_classified() {
    assert_eq!(
        classify_worker_exit(Some(0), true),
        WorkerEventPayload::Cancelled { cancelled_by: None }
    );
    assert_eq!(
        classify_worker_exit(Some(0), false),
        WorkerEventPayload::Completed { exit_code: Some(0), summary: None }
    );
    assert_eq!(
        classify_worker_exit(Some(3), false),
        WorkerEventPayload::Failed { reason: "worker exited with code 3".to_string(), recoverable: true }
    );
    assert_eq!(
        classify_worker_exit(Some(-9), false),
        WorkerEventPayload::Failed { reason: "worker exited with code -9".to_string(), recoverable: true }
    );
    assert_eq!(
        classify_worker_exit(None, false),
        WorkerEventPayload::Failed {
            reason: "worker exited without a status code".to_string(),
            recoverable: true
        }
    );
}

#[test]
fn executor_tracks_workers_in_id_order() {
    let mut ex = FleetExecutor::new("/ws");
    assert!(!ex.all_terminal());
    ex.track_worker("w2", "/logs/w2", WorkerStreamHost::Local);
    ex.track_worker("w1", "/logs/w1", WorkerStreamHost::Ssh("w1".to_string()));
    assert!(ex.is_tracking("w1"));
    assert!(!ex.is_tracking("w3"));
    assert_eq!(ex.worker_ids(), strings(&["w1", "w2"]));
    assert_eq!(ex.read_position("w2"), Some(("/logs/w2".to_string(), 0)));
    assert_eq!(ex.forget_worker("w1"), Some(WorkerStreamHost::Ssh("w1".to_string())));
    assert_eq!(ex.forget_worker("w1"), None);
    assert_eq!(ex.worker_ids(), strings(&["w2"]));
}

#[test]
fn partial_lines_wait_for_their_newline() {
    let mut ex = FleetExecutor::new("/ws");
    ex.track_worker("w", "/logs/w", WorkerStreamHost::Local);
    let first = ex.ingest_output("w", 20, "{\"type\":\"content\"}\n{\"type\":");
    assert_eq!(first, vec![WorkerEventPayload::Running]);
    let second = ex.ingest_output("w", 9, "\"done\"}\r\n");
    assert_eq!(
        second,
        vec![WorkerEventPayload::Completed { exit_code: Some(0), summary: None }]
    );
    assert_eq!(ex.read_position("w"), Some(("/logs/w".to_string(), 29)));
    assert!(ex.ingest_output("missing", 5, "x\n").is_empty());
}

#[test]
fn terminal_event_is_produced_once() {
    let mut ex = FleetExecutor::new("/ws");
    ex.track_worker("w", "/logs/w", WorkerStreamHost::Local);
    assert!(ex.awaits_exit("w"));
    assert!(ex.record_exit("w", WorkerHostState::Running, None).is_none());
    assert!(ex.record_exit("w", WorkerHostState::Unknown, None).is_none());
    let t = ex.record_exit("w", WorkerHostState::Exited, Some(2)).unwrap();
    assert_eq!(t.exit_code, Some(2));
    assert_eq!(
        t.payload,
        WorkerEventPayload::Failed { reason: "worker exited with code 2".to_string(), recoverable: true }
    );
    assert!(!ex.awaits_exit("w"));
    assert!(ex.record_exit("w", WorkerHostState::Exited, Some(0)).is_none());
    assert!(ex.all_terminal());
    ex.track_worker("v", "/logs/v", WorkerStreamHost::Local);
    assert!(!ex.all_terminal());
    let stopped = ex.record_exit("v", WorkerHostState::Stopped, Some(0)).unwrap();
    assert_eq!(stopped.payload, WorkerEventPayload::Cancelled { cancelled_by: None });
    assert!(ex.all_terminal());
}

#[test]
fn host_labels_and_parallel_tools() {
    assert_eq!(fleet_host_kind_label(FleetHostKind::LocalProcess), "local");
    assert_eq!(fleet_host_kind_label(FleetHostKind::Ssh), "ssh");
    assert!(is_parallel_safe_read_only_tool("read_file"));
    assert!(is_parallel_safe_read_only_tool("tool_search"));
    assert!(!is_parallel_safe_read_only_tool("edit_file"));
    assert!(!is_parallel_safe_read_only_tool("Read_file"));
}

#[test]
fn tool_profiles_are_narrowed() {
    let profile = ToolProfile::Explicit(strings(&["read_file", "exec_shell", "grep_files"]));
    let allowed = strings(&["read_file", "exec_shell"]);
    let denied = strings(&["exec_shell"]);
    assert_eq!(
        filter_tool_profile(&profile, &allowed, &denied),
        ToolProfile::Explicit(strings(&["read_file"]))
    );
    assert_eq!(
        filter_tool_profile(&profile, &Vec::new(), &denied),
        ToolProfile::Explicit(strings(&["read_file", "grep_files"]))
    );
    assert_eq!(
        filter_tool_profile(&ToolProfile::Inherited, &allowed, &denied),
        ToolProfile::Inherited
    );
}

#[test]
fn profile_tokens_and_model_hints() {
    assert!(is_agent_profile_token_char('a'));
    assert!(is_agent_profile_token_char('.'));
    assert!(!is_agent_profile_token_char(' '));
    assert!(is_model_hint("gpt-4.1"));
    assert!(!is_model_hint(" gpt"));
    assert!(!is_model_hint("a=b"));
    assert!(!is_model_hint(""));
    assert_eq!(trimmed_non_empty("  x "), Some("x".to_string()));
    assert_eq!(trimmed_non_empty("   "), None);
    assert_eq!(
        first_present(&vec![None, Some("  ".to_string()), Some(" b ".to_string())]),
        Some("b".to_string())
    );
    assert!(validate_agent_profile_token("p.toml", "id/name", "good_id").is_ok());
    assert_eq!(
        validate_agent_profile_token("p.toml", "id/name", "  ").unwrap_err().message,
        "agent profile p.toml id/name cannot be empty"
    );
    assert_eq!(
        validate_agent_profile_token("p.toml", "id/name", "bad id").unwrap_err().message,
        "agent profile p.toml id/name must be a simple token"
    );
    assert_eq!(
        validate_agent_profile_model_hint("p.toml", &Some("a b".to_string())).unwrap_err().message,
        "agent profile p.toml model must be a visible model id without whitespace or secrets"
    );
    assert!(validate_agent_profile_model_hint("p.toml", &None).is_ok());
}

#[test]
fn profiles_may_not_widen_permissions() {
    let mut fields = AgentProfileFields::default();
    fields.tools_posture = Some(" read-only ".to_string());
    assert!(reject_permission_expansion("a.toml", &fields).is_ok());
    fields.tools_posture = Some("full".to_string());
    assert_eq!(
        reject_permission_expansion("a.toml", &fields).unwrap_err().message,
        "agent profile a.toml tools.posture=\"full\" would widen permissions; use FleetProfile policy for grants"
    );
    fields.tools_posture = None;
    fields.allow_shell = Some(true);
    assert_eq!(
        reject_permission_expansion("a.toml", &fields).unwrap_err().message,
        "agent profile a.toml may not request allow_shell=true"
    );
    fields.allow_shell = Some(false);
    fields.trust = Some(true);
    assert_eq!(
        reject_permission_expansion("a.toml", &fields).unwrap_err().message,
        "agent profile a.toml may not request trust=true"
    );
    fields.trust = None;
    fields.approval_required = Some(false);
    assert_eq!(
        reject_permission_expansion("a.toml", &fields).unwrap_err().message,
        "agent profile a.toml may not disable approval_required"
    );
    fields.approval_required = Some(true);
    assert!(reject_permission_expansion("a.toml", &fields).is_ok());
}

#[test]
fn profile_fields_resolve() {
    let mut fields = AgentProfileFields::default();
    fields.name = Some(" planner ".to_string());
    fields.route_tier = Some(" fast ".to_string());
    fields.model = Some(" m-2 ".to_string());
    fields.persona = Some("careful".to_string());
    fields.description = Some("  ".to_string());
    let p = resolve_agent_profile("r.toml", "r", &fields).unwrap();
    assert_eq!(p.id, "planner");
    assert_eq!(p.role_name, "planner");
    assert_eq!(p.loadout_name, Some("fast".to_string()));
    assert_eq!(p.model, Some("m-2".to_string()));
    assert_eq!(p.instructions, Some("careful".to_string()));
    assert_eq!(p.description, None);
    assert_eq!(p.source, "r.toml");

    let fallback = resolve_agent_profile("x.toml", "x", &AgentProfileFields::default()).unwrap();
    assert_eq!(fallback.id, "x");
    assert_eq!(fallback.role_name, "x");

    let mut bad = AgentProfileFields::default();
    bad.base_role = Some("two words".to_string());
    assert_eq!(
        resolve_agent_profile("b.toml", "b", &bad).unwrap_err().message,
        "agent profile b.toml base_role/role_hint must be a simple token"
    );
}

#[test]
fn duplicate_profile_ids_are_refused() {
    let mut seen: Vec<String> = Vec::new();
    assert!(admit_profile_id(&mut seen, "a").is_ok());
    assert!(admit_profile_id(&mut seen, "b").is_ok());
    assert_eq!(
        admit_profile_id(&mut seen, "a").unwrap_err().message,
        "duplicate agent profile id a"
    );
    assert_eq!(seen, strings(&["a", "b"]));
}

#[test]
fn forgetting_a_worker_keeps_the_others_in_order() {
    let mut ex = FleetExecutor::new("/ws");
    ex.track_worker("c", "/logs/c", WorkerStreamHost::Local);
    ex.track_worker("a", "/logs/a", WorkerStreamHost::Local);
    ex.track_worker("b", "/logs/b", WorkerStreamHost::Local);
    assert!(ex.forget_worker("b").is_some());
    assert_eq!(ex.worker_ids(), strings(&["a", "c"]));
    assert_eq!(ex.read_position("a"), Some(("/logs/a".to_string(), 0)));
    assert_eq!(ex.read_position("c"), Some(("/logs/c".to_string(), 0)));
    assert!(ex.forget_worker("zz").is_none());
    assert_eq!(ex.worker_ids(), strings(&["a", "c"]));
    assert!(ex.awaits_exit("a") && !ex.all_terminal());
}
