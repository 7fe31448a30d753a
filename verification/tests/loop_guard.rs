use mimofan_core::loop_guard::{
    LoopBreak, LoopGuard, LoopGuardConfig, LoopPattern, MemorySkillNudge, Objective,
    ToolObservation, DEFAULT_ALTERNATION_CYCLES, DEFAULT_MAX_NUDGES_PER_PATTERN,
    DEFAULT_NO_PROGRESS_THRESHOLD, DEFAULT_REPEAT_THRESHOLD, DEFAULT_WARMUP_CALLS,
};

/// An observation that reports no progress and always the same output.
fn stalled(name: &str, fingerprint: u64) -> ToolObservation<'_> {
    ToolObservation {
        name,
        fingerprint,
        success: true,
        output: "same output",
        progress: false,
    }
}

fn enabled_config() -> LoopGuardConfig {
    LoopGuardConfig {
        enabled: true,
        ..LoopGuardConfig::default()
    }
}

fn guard() -> LoopGuard {
    LoopGuard::new(enabled_config())
}

/// Drives the guard past the warm-up window with distinct, productive calls.
fn finish_warmup(guard: &mut LoopGuard) {
    for index in 0..=DEFAULT_WARMUP_CALLS {
        let observation = ToolObservation {
            name: "list_dir",
            fingerprint: 1000 + index as u64,
            success: true,
            output: "warmup output",
            progress: true,
        };
        assert!(guard.observe(&observation).is_none());
    }
}

#[test]
fn pattern_labels_are_stable() {
    assert_eq!(LoopPattern::RepeatedCall.as_str(), "repeated_call");
    assert_eq!(LoopPattern::Alternating.as_str(), "alternating");
    assert_eq!(LoopPattern::NoProgress.as_str(), "no_progress");
    assert_eq!(
        LoopPattern::StreamingRepetition.as_str(),
        "streaming_repetition"
    );
    assert_eq!(LoopPattern::SemanticEcho.as_str(), "semantic_echo");
}

#[test]
fn healthy_varied_sequence_never_fires() {
    let mut guard = guard();
    // Fingerprints stand for (tool, arguments); the two identical
    // `read_file src/main.rs` calls share one.
    let calls: [(&str, u64); 9] = [
        ("list_dir", 1),
        ("read_file", 2),
        ("grep", 3),
        ("read_file", 4),
        ("edit_file", 5),
        ("exec_shell", 6),
        ("read_file", 2),
        ("edit_file", 7),
        ("exec_shell", 8),
    ];
    for (index, (name, fingerprint)) in calls.iter().enumerate() {
        let output = format!("output {index}");
        let observation = ToolObservation {
            name,
            fingerprint: *fingerprint,
            success: true,
            output: &output,
            progress: index % 2 == 0,
        };
        assert_eq!(guard.observe(&observation), None, "healthy call {index}");
    }
}

#[test]
fn identical_calls_trip_repeat_detector() {
    let mut guard = guard();
    finish_warmup(&mut guard);
    for _ in 0..DEFAULT_REPEAT_THRESHOLD - 1 {
        assert_eq!(guard.observe(&stalled("read_file", 7)), None);
    }
    let loop_break = guard
        .observe(&stalled("read_file", 7))
        .expect("identical calls at threshold must trip the guard");
    assert_eq!(loop_break.pattern, LoopPattern::RepeatedCall);
    assert_eq!(loop_break.occurrences, DEFAULT_REPEAT_THRESHOLD);
    assert_eq!(loop_break.tools, vec!["read_file".to_string()]);
    assert!(loop_break.nudge.contains("read_file"));
    assert!(!loop_break.nudge.to_lowercase().contains("aborting"));
}

#[test]
fn abab_alternation_trips_alternating_detector() {
    let mut guard = guard();
    finish_warmup(&mut guard);
    assert_eq!(guard.observe(&stalled("read_file", 10)), None);
    assert_eq!(guard.observe(&stalled("edit_file", 11)), None);
    assert_eq!(guard.observe(&stalled("read_file", 10)), None);
    let loop_break = guard
        .observe(&stalled("edit_file", 11))
        .expect("A,B,A,B must trip the alternation detector");
    assert_eq!(loop_break.pattern, LoopPattern::Alternating);
    assert_eq!(loop_break.occurrences, DEFAULT_ALTERNATION_CYCLES * 2);
    assert_eq!(
        loop_break.tools,
        vec!["read_file".to_string(), "edit_file".to_string()]
    );
    assert!(loop_break.nudge.contains("read_file"));
    assert!(loop_break.nudge.contains("edit_file"));
}

#[test]
fn progress_resets_counters_so_retries_are_not_loops() {
    let mut guard = guard();
    finish_warmup(&mut guard);
    for index in 0..12 {
        let observation = ToolObservation {
            name: "edit_file",
            fingerprint: 7,
            success: true,
            output: "applied",
            progress: true,
        };
        assert_eq!(guard.observe(&observation), None, "call {index}");
    }
}

#[test]
fn differing_errors_are_not_a_stall() {
    let mut guard = guard();
    finish_warmup(&mut guard);
    for index in 0..8u64 {
        let output = format!("error variant {index}");
        let observation = ToolObservation {
            name: "exec_shell",
            fingerprint: 50 + index,
            success: false,
            output: &output,
            progress: false,
        };
        assert_eq!(guard.observe(&observation), None, "call {index}");
    }
}

#[test]
fn repeated_identical_failures_trip_no_progress() {
    let mut guard = guard();
    finish_warmup(&mut guard);
    for index in 0..DEFAULT_NO_PROGRESS_THRESHOLD - 1 {
        let observation = ToolObservation {
            name: "read_file",
            fingerprint: 60 + index as u64,
            success: true,
            output: "",
            progress: false,
        };
        assert_eq!(guard.observe(&observation), None);
    }
    let observation = ToolObservation {
        name: "read_file",
        fingerprint: 99,
        success: true,
        output: "",
        progress: false,
    };
    let loop_break = guard
        .observe(&observation)
        .expect("identical outcomes must trip the stall detector");
    assert_eq!(loop_break.pattern, LoopPattern::NoProgress);
    assert_eq!(loop_break.occurrences, DEFAULT_NO_PROGRESS_THRESHOLD);
}

#[test]
fn nudges_are_capped_per_pattern() {
    let mut guard = guard();
    finish_warmup(&mut guard);
    let mut fired = 0;
    for _ in 0..60 {
        if let Some(loop_break) = guard.observe(&stalled("read_file", 7)) {
            if loop_break.pattern == LoopPattern::RepeatedCall {
                fired += 1;
            }
        }
    }
    assert_eq!(fired, DEFAULT_MAX_NUDGES_PER_PATTERN);
}

#[test]
fn disabled_guard_never_fires() {
    let mut guard = LoopGuard::new(LoopGuardConfig {
        enabled: false,
        ..LoopGuardConfig::default()
    });
    for _ in 0..50 {
        assert_eq!(guard.observe(&stalled("read_file", 7)), None);
    }
    assert_eq!(guard.observed_calls(), 0, "disabled guard records nothing");
}

#[test]
fn streaming_repetition_trips_on_repeated_lines() {
    let mut guard = guard();
    finish_warmup(&mut guard);
    let observation = ToolObservation {
        name: "exec_shell",
        fingerprint: 5,
        success: true,
        output: "step done\nstep done\nstep done\nstep done",
        progress: false,
    };
    let loop_break = guard
        .observe(&observation)
        .expect("intra-output line repetition must trip the guard");
    assert_eq!(loop_break.pattern, LoopPattern::StreamingRepetition);
    assert_eq!(loop_break.occurrences, 4);
}

#[test]
fn streaming_repetition_ignores_varied_output() {
    let mut guard = guard();
    finish_warmup(&mut guard);
    let observation = ToolObservation {
        name: "exec_shell",
        fingerprint: 5,
        success: true,
        output: "line one\nline two\nline three",
        progress: false,
    };
    assert_eq!(guard.observe(&observation), None);
}

#[test]
fn semantic_echo_trips_on_near_duplicate_outputs() {
    let mut guard = guard();
    finish_warmup(&mut guard);
    let first = ToolObservation {
        name: "read_file",
        fingerprint: 21,
        success: true,
        output: "the build failed because the module is missing and the import is broken",
        progress: false,
    };
    assert_eq!(guard.observe(&first), None, "first output recorded");
    let second = ToolObservation {
        name: "read_file",
        fingerprint: 22,
        success: true,
        output: "the build failed because the module is missing and the import is broken now",
        progress: false,
    };
    let loop_break = guard
        .observe(&second)
        .expect("near-duplicate consecutive outputs must trip the echo detector");
    assert_eq!(loop_break.pattern, LoopPattern::SemanticEcho);
}

#[test]
fn semantic_echo_ignores_distinct_outputs() {
    let mut guard = guard();
    finish_warmup(&mut guard);
    let first = ToolObservation {
        name: "read_file",
        fingerprint: 21,
        success: true,
        output: "the config file lists three servers in the eu region",
        progress: false,
    };
    assert_eq!(guard.observe(&first), None);
    let second = ToolObservation {
        name: "read_file",
        fingerprint: 22,
        success: true,
        output: "the test suite reported two passing cases and one failure in parsing",
        progress: false,
    };
    assert_eq!(guard.observe(&second), None, "distinct outputs are not an echo");
}

#[test]
fn acceptance_858_no_progress_trips_and_halts() {
    let mut guard = guard();
    finish_warmup(&mut guard);
    let mut tripped_at: Option<usize> = None;
    for index in 0..DEFAULT_NO_PROGRESS_THRESHOLD + 2 {
        let observation = ToolObservation {
            name: "read_file",
            fingerprint: 300 + index as u64,
            success: true,
            output: "",
            progress: false,
        };
        if let Some(loop_break) = guard.observe(&observation) {
            if loop_break.pattern == LoopPattern::NoProgress && tripped_at.is_none() {
                tripped_at = Some(index);
                assert!(loop_break
                    .nudge
                    .to_lowercase()
                    .contains("not making progress"));
                break;
            }
        }
    }
    assert!(tripped_at.is_some());
    assert_eq!(tripped_at.unwrap(), DEFAULT_NO_PROGRESS_THRESHOLD - 1);
}

#[test]
fn acceptance_858_loop_guard_halts_on_no_progress() {
    let mut guard = guard();
    finish_warmup(&mut guard);
    let mut halted_at: Option<usize> = None;
    for index in 0..12 {
        let observation = ToolObservation {
            name: "read_file",
            fingerprint: 400 + index as u64,
            success: true,
            output: "file unchanged",
            progress: false,
        };
        if let Some(loop_break) = guard.observe(&observation) {
            if loop_break.pattern == LoopPattern::NoProgress {
                halted_at = Some(index);
                break;
            }
        }
    }
    let at = halted_at.expect("no-progress loop must be halted by the guard");
    assert!(at < DEFAULT_REPEAT_THRESHOLD + DEFAULT_NO_PROGRESS_THRESHOLD + DEFAULT_WARMUP_CALLS);
}

#[test]
fn semantic_echo_requires_two_distinct_observations() {
    let mut guard = guard();
    finish_warmup(&mut guard);
    let solo = ToolObservation {
        name: "read_file",
        fingerprint: 21,
        success: true,
        output: "identical text repeated many times over and over again",
        progress: false,
    };
    assert_eq!(guard.observe(&solo), None);
}

#[test]
fn no_progress_report_carries_objective_text() {
    let objective = Objective {
        text: "Migrate the billing service to Stripe".to_string(),
        key_points: vec!["webhook signatures".to_string()],
    };
    let mut guard = guard().with_objective(objective);
    finish_warmup(&mut guard);
    for index in 0..DEFAULT_NO_PROGRESS_THRESHOLD - 1 {
        let observation = ToolObservation {
            name: "read_file",
            fingerprint: 60 + index as u64,
            success: true,
            output: "",
            progress: false,
        };
        assert_eq!(guard.observe(&observation), None);
    }
    let observation = ToolObservation {
        name: "read_file",
        fingerprint: 99,
        success: true,
        output: "",
        progress: false,
    };
    let loop_break = guard.observe(&observation).expect("stall must trip NoProgress");
    assert_eq!(loop_break.pattern, LoopPattern::NoProgress);
    assert!(loop_break
        .nudge
        .contains("Migrate the billing service to Stripe"));
}

#[test]
fn objective_is_persisted_across_turns_via_state() {
    let objective = Objective {
        text: "Refactor the auth module to use JWT".to_string(),
        key_points: Vec::new(),
    };
    let guard = guard().with_objective(objective);
    let state = guard.snapshot_state();
    let mut restored = LoopGuard::default();
    restored.restore_state(&state);
    assert_eq!(
        restored.objective().map(|o| o.text.as_str()),
        Some("Refactor the auth module to use JWT")
    );
}

#[test]
fn disabled_guard_suppresses_periodic_nudge() {
    let mut guard = LoopGuard::default();
    for index in 1..=100u64 {
        assert_eq!(guard.observe(&stalled("read_file", index)), None);
    }
    assert_eq!(guard.turn_counter(), 0, "disabled guard counts nothing");
}

#[test]
fn loop_only_enabled_suppresses_periodic_nudge() {
    let mut guard = LoopGuard::new(LoopGuardConfig {
        enabled: true,
        memory_skill_nudge: false,
        nudge_every_n: 3,
        ..LoopGuardConfig::default()
    });
    finish_warmup(&mut guard);
    for index in 0..30u64 {
        let result = guard.observe(&stalled("read_file", 500 + index));
        assert_ne!(result.map(|b| b.pattern), Some(LoopPattern::MemorySkill));
    }
}

#[test]
fn repeat_nudge_text_is_exact() {
    let mut guard = guard();
    finish_warmup(&mut guard);
    guard.observe(&stalled("grep", 8));
    guard.observe(&stalled("grep", 8));
    let loop_break = guard.observe(&stalled("grep", 8)).unwrap();
    assert_eq!(
        loop_break.nudge,
        "[Loop guard] You have called `grep` 3 times in a row with identical arguments, and the result has not changed. Repeating it again will not produce a different answer. Stop and re-plan: state what you were trying to learn or change, then either (a) use different arguments or a different tool, (b) act on the result you already have, or (c) tell the user what is blocking you and ask how to proceed."
    );
}

#[test]
fn long_tool_names_are_cut_in_nudges() {
    let mut guard = guard();
    finish_warmup(&mut guard);
    let name = "x".repeat(60);
    for _ in 0..2 {
        assert_eq!(guard.observe(&stalled(&name, 8)), None);
    }
    let loop_break = guard.observe(&stalled(&name, 8)).unwrap();
    let quoted = format!("`{}…`", "x".repeat(48));
    assert!(loop_break.nudge.contains(&quoted));
    assert_eq!(loop_break.tools, vec![name.clone()]);
}

#[test]
fn semantic_echo_reports_rounded_percentage() {
    let mut guard = guard();
    finish_warmup(&mut guard);
    let first = ToolObservation {
        name: "read_file",
        fingerprint: 21,
        success: true,
        output: "the build failed because the module is missing and the import is broken",
        progress: false,
    };
    guard.observe(&first);
    let second = ToolObservation {
        name: "read_file",
        fingerprint: 22,
        success: true,
        output: "the build failed because the module is missing and the import is broken now",
        progress: false,
    };
    let loop_break = guard.observe(&second).unwrap();
    // Ten shared words of eleven: 90.9%.
    assert!(loop_break.nudge.contains("are 91% the same"));
    assert_eq!(loop_break.occurrences, 2);
}

#[test]
fn objective_without_text_adds_nothing() {
    let objective = Objective {
        text: String::new(),
        key_points: Vec::new(),
    };
    let mut guard = guard().with_objective(objective);
    finish_warmup(&mut guard);
    let mut last: Option<LoopBreak> = None;
    for index in 0..DEFAULT_NO_PROGRESS_THRESHOLD {
        let observation = ToolObservation {
            name: "read_file",
            fingerprint: 60 + index as u64,
            success: true,
            output: "",
            progress: false,
        };
        last = guard.observe(&observation);
    }
    let loop_break = last.unwrap();
    assert!(loop_break.nudge.ends_with("ask the user for direction."));
}

#[test]
fn warmup_calls_never_fire_even_when_looping() {
    let mut guard = LoopGuard::new(LoopGuardConfig {
        enabled: true,
        warmup_calls: 6,
        ..LoopGuardConfig::default()
    });
    for _ in 0..6 {
        assert_eq!(guard.observe(&stalled("read_file", 7)), None);
    }
    assert!(guard.in_warmup());
    let loop_break = guard.observe(&stalled("read_file", 7)).unwrap();
    assert_eq!(loop_break.pattern, LoopPattern::RepeatedCall);
    assert_eq!(loop_break.occurrences, 7);
    assert!(!guard.in_warmup());
}

#[test]
fn periodic_reminders_alternate() {
    let mut guard = LoopGuard::new(LoopGuardConfig {
        enabled: true,
        memory_skill_nudge: true,
        nudge_every_n: 5,
        no_progress_threshold: 0,
        ..LoopGuardConfig::default()
    });
    let mut reminders: Vec<String> = Vec::new();
    for index in 1..=10u64 {
        if let Some(b) = guard.observe(&stalled("read_file", index)) {
            assert_eq!(b.pattern, LoopPattern::MemorySkill);
            assert!(b.tools.is_empty());
            reminders.push(b.nudge);
        }
    }
    assert_eq!(reminders.len(), 2);
    assert!(reminders[0].contains("memory"));
    assert!(reminders[1].contains("skill"));
    assert_eq!(guard.turn_counter(), 10);
    assert_eq!(MemorySkillNudge::Memory.as_str(), "memory");
    assert_eq!(MemorySkillNudge::Skill.as_str(), "skill");
}

#[test]
fn snapshot_and_restore_carry_counters_and_budgets() {
    let mut guard = guard();
    finish_warmup(&mut guard);
    for _ in 0..3 {
        guard.observe(&stalled("read_file", 7));
    }
    let state = guard.snapshot_state();
    assert_eq!(state.observed, DEFAULT_WARMUP_CALLS + 1 + 3);
    assert_eq!(state.turn_counter, (DEFAULT_WARMUP_CALLS + 1 + 3) as u64);
    assert_eq!(state.fired.len(), 7);
    assert_eq!(state.fired[0], (LoopPattern::RepeatedCall, 1));
    let mut restored = guard_with_state(&state);
    assert_eq!(restored.observed_calls(), DEFAULT_WARMUP_CALLS + 1 + 3);
    // One repeat nudge was spent before the snapshot: one more is left.
    let mut fired = 0;
    for _ in 0..30 {
        if let Some(b) = restored.observe(&stalled("read_file", 7)) {
            if b.pattern == LoopPattern::RepeatedCall {
                fired += 1;
            }
        }
    }
    assert_eq!(fired, DEFAULT_MAX_NUDGES_PER_PATTERN - 1);
}

fn guard_with_state(state: &mimofan_core::loop_guard::LoopGuardState) -> LoopGuard {
    let mut g = guard();
    g.restore_state(state);
    g
}
