use mimofan_core::hooks::{
    merge_env, parse_env_lines, parse_message_submit_stdout, parse_tool_call_before_stdout,
    tool_name_matches_condition, Hook, HookCondition, HookContext, HookEvent, HookExecutor,
    HookResult, HooksConfig, MessageSubmitAction, MessageSubmitOutcome, MessageSubmitStdout,
    ToolCallDecision,
};

fn config(hooks: Vec<Hook>) -> HooksConfig {
    HooksConfig { hooks, enabled: true, default_timeout_secs: None, working_dir: None }
}

fn result(success: bool, exit_code: Option<i32>, stdout: &str, stderr: &str) -> HookResult {
    HookResult {
        name: None,
        success,
        exit_code,
        stdout: stdout.to_string(),
        stderr: stderr.to_string(),
        duration_ms: 1,
        error: None,
    }
}

fn env_value<'a>(env: &'a [(String, String)], key: &str) -> Option<&'a str> {
    env.iter().find(|(k, _)| k == key).map(|(_, v)| v.as_str())
}

#[test]
fn event_names_are_snake_case() {
    assert_eq!(HookEvent::SessionStart.as_str(), "session_start");
    assert_eq!(HookEvent::ToolCallBefore.as_str(), "tool_call_before");
    assert_eq!(HookEvent::SubagentComplete.as_str(), "subagent_complete");
    assert_eq!(HookEvent::ShellEnv.as_str(), "shell_env");
}

#[test]
fn hook_builder_defaults() {
    let hook = Hook::new(HookEvent::OnError, "echo hi")
        .with_timeout(5)
        .background()
        .with_name("n");
    assert_eq!(hook.command, "echo hi");
    assert_eq!(hook.timeout_secs, Some(5));
    assert!(hook.background);
    assert!(hook.continue_on_error);
    assert_eq!(hook.name.as_deref(), Some("n"));
    assert_eq!(Hook::new(HookEvent::OnError, "x").timeout_secs, None);
}

#[test]
fn hooks_for_event_filters_and_respects_switch() {
    let mut cfg = config(vec![
        Hook::new(HookEvent::SessionStart, "a"),
        Hook::new(HookEvent::SessionEnd, "b"),
        Hook::new(HookEvent::SessionStart, "c"),
    ]);
    let starts: Vec<&str> = cfg
        .hooks_for_event(HookEvent::SessionStart)
        .iter()
        .map(|h| h.command.as_str())
        .collect();
    assert_eq!(starts, vec!["a", "c"]);
    assert!(cfg.has_hooks());
    cfg.enabled = false;
    assert!(cfg.hooks_for_event(HookEvent::SessionStart).is_empty());
    assert!(!cfg.has_hooks());
}

#[test]
fn tool_name_globs() {
    assert!(tool_name_matches_condition("mcp__fs__read", "mcp__*"));
    assert!(!tool_name_matches_condition("exec_shell", "mcp__*"));
    assert!(tool_name_matches_condition("read_file", "read_file"));
    assert!(!tool_name_matches_condition("read_files", "read_file"));
    assert!(tool_name_matches_condition("a.b", "a.*"));
    assert!(!tool_name_matches_condition("axb", "a.b*"));
}

#[test]
fn conditions_combine() {
    let exec = HookExecutor::new(config(vec![]), ".".to_string());
    let ctx = HookContext::new().with_tool_name("write_file").with_mode("Agent");
    let hook = |c: HookCondition| Hook::new(HookEvent::ToolCallAfter, "x").with_condition(c);
    assert!(exec.matches_condition(
        &hook(HookCondition::ToolCategory { category: "file_write".into() }),
        &ctx
    ));
    assert!(exec.matches_condition(&hook(HookCondition::Mode { mode: "agent".into() }), &ctx));
    assert!(!exec.matches_condition(&hook(HookCondition::ExitCode { code: 1 }), &ctx));
    assert!(exec.matches_condition(
        &hook(HookCondition::Any {
            conditions: vec![
                HookCondition::ExitCode { code: 1 },
                HookCondition::ToolName { name: "write_*".into() },
            ]
        }),
        &ctx
    ));
    assert!(!exec.matches_condition(
        &hook(HookCondition::All {
            conditions: vec![HookCondition::Always, HookCondition::ExitCode { code: 1 }]
        }),
        &ctx
    ));
}

#[test]
fn env_vars_describe_the_context() {
    let ctx = HookContext::new()
        .with_tool_name("exec_shell")
        .with_tool_result("out", false, Some(-3))
        .with_tokens(42)
        .with_message(&"é".repeat(3000));
    let env = ctx.to_env_vars();
    assert_eq!(env_value(&env, "DEEPSEEK_TOOL_NAME"), Some("exec_shell"));
    assert_eq!(env_value(&env, "DEEPSEEK_TOOL_EXIT_CODE"), Some("-3"));
    assert_eq!(env_value(&env, "DEEPSEEK_TOOL_SUCCESS"), Some("false"));
    assert_eq!(env_value(&env, "DEEPSEEK_TOTAL_TOKENS"), Some("42"));
    assert_eq!(env_value(&env, "DEEPSEEK_MODE"), None);
    let message = env_value(&env, "DEEPSEEK_MESSAGE").unwrap();
    assert_eq!(message, format!("{}...[truncated]", "é".repeat(2500)));
}

#[test]
fn session_ids_look_random() {
    let exec = HookExecutor::new(config(vec![]), ".".to_string());
    let id = exec.session_id();
    assert_eq!(id.len(), 13);
    assert!(id.starts_with("sess_"));
    assert!(id[5..].chars().all(|c| c.is_ascii_hexdigit() && !c.is_ascii_uppercase()));
    let disabled = HookExecutor::disabled();
    assert!(!disabled.is_enabled());
    assert_eq!(disabled.session_id(), "");
}

#[test]
fn shell_env_lines_parse_and_later_values_win() {
    let parsed = parse_env_lines(
        "# comment\nexport A=\"1\"\nB='two'\n  C = three \nnoequals\n=skip\nA=4\n",
    );
    assert_eq!(
        parsed,
        vec![
            ("A".to_string(), "4".to_string()),
            ("B".to_string(), "two".to_string()),
            ("C".to_string(), "three".to_string()),
        ]
    );
    let mut merged = vec![("B".to_string(), "old".to_string())];
    merge_env(&mut merged, parsed);
    assert_eq!(env_value(&merged, "B"), Some("two"));
    assert_eq!(merged.len(), 3);
    let failed = result(false, Some(1), "X=1", "");
    assert!(failed.shell_env_contribution().is_empty());
}

#[test]
fn message_submit_stdout_meanings() {
    assert!(matches!(parse_message_submit_stdout("  "), MessageSubmitStdout::Unchanged));
    assert!(matches!(parse_message_submit_stdout("{}"), MessageSubmitStdout::Unchanged));
    match parse_message_submit_stdout("{\"text\":\"new\"}") {
        MessageSubmitStdout::Replaced(t) => assert_eq!(t, "new"),
        other => panic!("unexpected {other:?}"),
    }
    assert!(matches!(parse_message_submit_stdout("{\"text\":\"\"}"), MessageSubmitStdout::Invalid(_)));
    assert!(matches!(parse_message_submit_stdout("[1]"), MessageSubmitStdout::Invalid(_)));
    assert!(matches!(parse_message_submit_stdout("nope"), MessageSubmitStdout::Invalid(_)));
}

#[test]
fn tool_call_before_decisions() {
    let d = parse_tool_call_before_stdout(
        "{\"decision\":\"deny\",\"reason\":\"no\",\"updatedInput\":{\"a\":1},\"additionalContext\":\"c\"}",
    );
    assert_eq!(d.decision, Some(ToolCallDecision::Deny));
    assert_eq!(d.reason.as_deref(), Some("no"));
    assert_eq!(d.updated_input.as_deref(), Some("{\"a\":1}"));
    assert_eq!(d.additional_context.as_deref(), Some("c"));
    let weird = parse_tool_call_before_stdout("{\"decision\":\"maybe\",\"updatedInput\":3}");
    assert_eq!(weird.decision, None);
    assert_eq!(weird.updated_input, None);
    assert_eq!(parse_tool_call_before_stdout("plain text").decision, None);
}

#[test]
fn message_submit_run_replaces_and_blocks() {
    let exec = HookExecutor::new(
        config(vec![
            Hook::new(HookEvent::MessageSubmit, "rewrite"),
            Hook::new(HookEvent::SessionStart, "other"),
            Hook::new(HookEvent::MessageSubmit, "bg").background(),
            Hook::new(HookEvent::MessageSubmit, "guard"),
        ]),
        ".".to_string(),
    );
    let ctx = HookContext::new();
    let mut run = exec.begin_message_submit("hello");
    match exec.message_submit_next(&mut run, &ctx) {
        MessageSubmitAction::RunSync { index, env, context } => {
            assert_eq!(index, 0);
            assert_eq!(env_value(&env, "DEEPSEEK_MESSAGE"), Some("hello"));
            assert_eq!(context.message.as_deref(), Some("hello"));
        }
        other => panic!("unexpected {other:?}"),
    }
    assert!(exec
        .message_submit_record(&mut run, 0, &result(true, Some(0), "{\"text\":\"HELLO\"}", ""))
        .is_none());
    assert_eq!(run.current(), "HELLO");
    match exec.message_submit_next(&mut run, &ctx) {
        MessageSubmitAction::RunBackground { index, .. } => assert_eq!(index, 2),
        other => panic!("unexpected {other:?}"),
    }
    match exec.message_submit_next(&mut run, &ctx) {
        MessageSubmitAction::RunSync { index, .. } => assert_eq!(index, 3),
        other => panic!("unexpected {other:?}"),
    }
    let blocked = exec
        .message_submit_record(&mut run, 3, &result(false, Some(2), "", "\n  policy says no \n"))
        .unwrap();
    assert_eq!(blocked, MessageSubmitOutcome::Blocked { reason: "policy says no".to_string() });
    assert_eq!(blocked.warning(), None);
}

#[test]
fn message_submit_run_finishes_with_warning() {
    let exec = HookExecutor::new(
        config(vec![Hook::new(HookEvent::MessageSubmit, "flaky")]),
        ".".to_string(),
    );
    let ctx = HookContext::new();
    let mut run = exec.begin_message_submit("hi");
    assert!(matches!(
        exec.message_submit_next(&mut run, &ctx),
        MessageSubmitAction::RunSync { index: 0, .. }
    ));
    assert!(exec
        .message_submit_record(&mut run, 0, &result(false, Some(1), "{\"reason\":\"down\"}", "err"))
        .is_none());
    match exec.message_submit_next(&mut run, &ctx) {
        MessageSubmitAction::Done(outcome) => {
            assert_eq!(outcome.warning(), Some("down"));
            assert_eq!(
                outcome,
                MessageSubmitOutcome::Unchanged { warning: Some("down".to_string()) }
            );
        }
        other => panic!("unexpected {other:?}"),
    }
    let mut fatal = Hook::new(HookEvent::MessageSubmit, "fatal");
    fatal.continue_on_error = false;
    let exec2 = HookExecutor::new(config(vec![fatal]), ".".to_string());
    let mut run2 = exec2.begin_message_submit("hi");
    let _ = exec2.message_submit_next(&mut run2, &ctx);
    assert_eq!(
        exec2.message_submit_record(&mut run2, 0, &result(false, Some(1), "", "")),
        Some(MessageSubmitOutcome::Blocked {
            reason: "message_submit hook failed and blocked submission".to_string()
        })
    );
}

#[test]
fn long_reasons_are_cut_to_240_characters() {
    let exec = HookExecutor::new(
        config(vec![Hook::new(HookEvent::MessageSubmit, "x")]),
        ".".to_string(),
    );
    let mut run = exec.begin_message_submit("hi");
    let long = "r".repeat(300);
    let out = exec
        .message_submit_record(&mut run, 0, &result(false, Some(2), &long, ""))
        .unwrap();
    assert_eq!(out, MessageSubmitOutcome::Blocked { reason: format!("{}…", "r".repeat(240)) });
}

#[test]
fn matching_hooks_and_background_checks() {
    let exec = HookExecutor::new(
        config(vec![
            Hook::new(HookEvent::ToolCallBefore, "a")
                .with_condition(HookCondition::ToolName { name: "read_*".into() }),
            Hook::new(HookEvent::ToolCallBefore, "b").background(),
            Hook::new(HookEvent::ToolCallAfter, "c"),
        ]),
        "/work".to_string(),
    );
    let ctx = HookContext::new().with_tool_name("exec_shell");
    assert_eq!(exec.matching_hooks(HookEvent::ToolCallBefore, &ctx), vec![1]);
    assert!(exec.has_hooks_for_event(HookEvent::ToolCallAfter));
    assert!(!exec.has_hooks_for_event(HookEvent::OnError));
    assert!(exec.has_background_hooks_for_event(HookEvent::ToolCallBefore));
    assert!(!exec.has_background_hooks_for_event(HookEvent::ToolCallAfter));
    assert_eq!(exec.working_dir(), "/work");
    assert_eq!(exec.timeout_secs_for(&exec.config().hooks[0]), 30);
    let bg = HookResult::background(&exec.config().hooks[1], 0);
    assert!(bg.success && bg.exit_code.is_none());
}

#[test]
fn hook_timeout_wins_over_the_configured_default() {
    let own = Hook::new(HookEvent::ToolCallBefore, "sleep 3").with_timeout(10);
    let plain = Hook::new(HookEvent::ToolCallBefore, "true");
    let mut cfg = config(vec![own, plain]);
    cfg.default_timeout_secs = Some(1);
    let exec = HookExecutor::new(cfg, "/work".to_string());
    assert_eq!(exec.timeout_secs_for(&exec.config().hooks[0]), 10);
    assert_eq!(exec.timeout_secs_for(&exec.config().hooks[1]), 1);
    let exec = HookExecutor::new(config(vec![Hook::new(HookEvent::OnError, "x")]), "/w".to_string());
    assert_eq!(exec.timeout_secs_for(&exec.config().hooks[0]), 30);
}

#[test]
fn event_names_read_back_as_their_events() {
    let all = [
        HookEvent::SessionStart,
        HookEvent::SessionEnd,
        HookEvent::MessageSubmit,
        HookEvent::ToolCallBefore,
        HookEvent::ToolCallAfter,
        HookEvent::ModeChange,
        HookEvent::OnError,
        HookEvent::TurnEnd,
        HookEvent::SubagentSpawn,
        HookEvent::SubagentComplete,
        HookEvent::ShellEnv,
    ];
    for e in all {
        assert_eq!(HookEvent::from_name(e.as_str()), Some(e));
    }
    assert_eq!(HookEvent::ShellEnv.as_str(), "shell_env");
    assert_eq!(HookEvent::from_name("ShellEnv"), None);
    assert_eq!(HookEvent::from_name(""), None);
}
