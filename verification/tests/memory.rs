use mimofan_core::memory::{
    build_index, category_path, compose_decision_block, compose_index_block,
    decision_create_at, decision_headings_ok_exec, decision_reverse_at, decision_revise_at,
    entry_line, index_path, is_category, parse_decisions, parse_quick_add, paths_match,
    remove_entry_in, render_decisions, replace_entry_in, split_paths_tag, strip_timestamp,
    validate_replacement, DecisionEntry, DecisionError, DecisionEventKind, MemoryCategory,
    MemoryEditError, CATEGORIES,
};

#[test]
fn parse_quick_add_categories() {
    assert_eq!(
        parse_quick_add("# user I prefer Rust"),
        (Some("user"), "I prefer Rust".to_string())
    );
    assert_eq!(parse_quick_add("# note"), (None, "note".to_string()));
    assert_eq!(
        parse_quick_add("# feedback  use tabs"),
        (Some("feedback"), "use tabs".to_string())
    );
}

#[test]
fn memory_category_parsing() {
    assert_eq!(MemoryCategory::from_str("user"), Some(MemoryCategory::User));
    assert_eq!(MemoryCategory::from_str("FEEDBACK"), Some(MemoryCategory::Feedback));
    assert_eq!(MemoryCategory::from_str("Project"), Some(MemoryCategory::Project));
    assert_eq!(MemoryCategory::from_str("reference"), Some(MemoryCategory::Reference));
    assert_eq!(MemoryCategory::from_str("bogus"), None);
    assert_eq!(MemoryCategory::from_str(""), None);
    for cat in MemoryCategory::ALL.iter() {
        assert_eq!(MemoryCategory::from_str(cat.as_str()), Some(*cat));
        assert_eq!(cat.as_str(), cat.as_str().to_ascii_lowercase().as_str());
    }
}

#[test]
fn split_paths_tag_parses() {
    let (text, paths) =
        split_paths_tag("- (2026-01-01) API auth uses Bearer <!-- paths: src/api/**/*.ts -->");
    assert_eq!(text, "- (2026-01-01) API auth uses Bearer");
    assert_eq!(paths, Some(vec!["src/api/**/*.ts".to_string()]));

    let (text2, paths2) = split_paths_tag("- plain note");
    assert_eq!(text2, "- plain note");
    assert!(paths2.is_none());

    let (text3, paths3) =
        split_paths_tag("- (ts) multi <!-- paths: src/api/*.ts, **/auth*.ts --> trailing");
    assert!(text3.contains("multi"));
    assert!(text3.contains("trailing"));
    assert_eq!(
        paths3,
        Some(vec!["src/api/*.ts".to_string(), "**/auth*.ts".to_string()])
    );
}

#[test]
fn paths_match_behaviour() {
    let active = vec!["src/api/v1/login.ts".to_string(), "README.md".to_string()];
    // `src/api/**/*.ts` should match a file under src/api.
    assert!(paths_match(&["src/api/**/*.ts".to_string()], &active));
    // `**/auth*.ts` should NOT match the active set (no auth file present).
    assert!(!paths_match(&["**/auth*.ts".to_string()], &active));
    // Non-matching glob.
    assert!(!paths_match(&["tests/**/*.rs".to_string()], &active));
    // Empty globs => always apply.
    assert!(paths_match(&[], &active));
    // Empty active => nothing matches (unless always-apply).
    assert!(!paths_match(&["src/api/**/*.ts".to_string()], &[]));
}

fn category_files(project: &str, reference: &str) -> Vec<(String, Option<String>)> {
    vec![
        ("user".to_string(), None),
        ("feedback".to_string(), Some(String::new())),
        ("project".to_string(), Some(project.to_string())),
        ("reference".to_string(), Some(reference.to_string())),
    ]
}

#[test]
fn compose_index_block_inlines_paths_matches() {
    let mut project = String::new();
    project.push_str(&entry_line("project", "always-on project note", "2026-01-01 10:00 UTC").unwrap());
    project.push_str(
        &entry_line(
            "project",
            "API auth uses Bearer <!-- paths: src/api/**/*.ts -->",
            "2026-01-01 10:01 UTC",
        )
        .unwrap(),
    );
    let reference = entry_line(
        "reference",
        "deploy runbook <!-- paths: deploy/** -->",
        "2026-01-01 10:02 UTC",
    )
    .unwrap();
    let files = category_files(&project, &reference);
    let index = build_index(&files);

    // No active paths => only index pointers, no <memory_paths_matches>.
    let block_none =
        compose_index_block(true, Some(&index), "/m/MEMORY.md", &files, None).expect("block built");
    assert!(block_none.contains("- [project](project.md)"));
    assert!(!block_none.contains("<memory_paths_matches>"));

    // Active path matches the API glob => its bullet inlined (and only
    // the matched one — the deploy runbook is excluded).
    let active = vec!["src/api/v1/login.ts".to_string()];
    let block = compose_index_block(true, Some(&index), "/m/MEMORY.md", &files, Some(&active))
        .expect("block built");
    assert!(block.contains("<memory_paths_matches>"));
    let matches_seg = block
        .split("<memory_paths_matches>")
        .nth(1)
        .unwrap()
        .split("</memory_paths_matches>")
        .next()
        .unwrap();
    assert!(matches_seg.contains("[project] API auth uses Bearer"));
    assert!(!matches_seg.contains("[reference] deploy runbook"));
    assert!(!matches_seg.contains("<!-- paths:"));
    // The always-on bullet has no paths tag, so it is NOT inlined.
    assert!(!matches_seg.contains("always-on project note"));
}

#[test]
fn index_block_exact_text_and_gating() {
    let files = category_files("", "");
    assert_eq!(compose_index_block(false, Some("x"), "d", &files, None), None);
    assert_eq!(compose_index_block(true, None, "d", &files, None), None);
    assert_eq!(compose_index_block(true, Some("  \n "), "d", &files, None), None);
    assert_eq!(
        compose_index_block(true, Some("idx"), "d", &files, None).unwrap(),
        "<user_memory_index source=\"d\">\nidx\n</user_memory_index>"
    );
}

#[test]
fn index_block_is_cut_at_a_character_boundary() {
    let files = category_files("", "");
    let long = "é".repeat(5000);
    let block = compose_index_block(true, Some(&long), "d", &files, None).unwrap();
    let expected = format!(
        "<user_memory_index source=\"d\">\n{}\n<truncated bytes=1808 source=\"d\">\n</user_memory_index>",
        "é".repeat(4096)
    );
    assert_eq!(block, expected);
}

#[test]
fn index_lists_non_blank_categories() {
    let files = category_files("- (t) one\n\n- (t) two\n", "");
    assert_eq!(
        build_index(&files),
        "# Memory Index\n\nConcise pointers to durable memory. Load category details on demand with the Read tool (paths below). Keep entries declarative.\n\n- [project](project.md) — - (t) one  (2 entries)\n"
    );
}

#[test]
fn paths_and_categories() {
    assert_eq!(index_path("/home/u/.mimofan/memory"), "/home/u/.mimofan/memory/MEMORY.md");
    assert_eq!(index_path("dir/"), "dir/MEMORY.md");
    assert_eq!(category_path("d", "user"), "d/user.md");
    assert!(is_category("Reference"));
    assert!(!is_category("notes"));
    assert_eq!(CATEGORIES, ["user", "feedback", "project", "reference"]);
}

#[test]
fn timestamps_are_stripped_from_bullet_bodies() {
    assert_eq!(strip_timestamp("(2026-01-01 10:00 UTC)   fact "), "fact");
    assert_eq!(strip_timestamp("no stamp"), "no stamp");
    assert_eq!(strip_timestamp("(unclosed stamp"), "(unclosed stamp");
}

#[test]
fn entries_are_validated_and_stamped() {
    assert_eq!(
        entry_line("user", "## prefers Rust ", "T").unwrap(),
        "- (T) prefers Rust\n"
    );
    let err = entry_line("bogus", "x", "T").unwrap_err();
    assert_eq!(err, MemoryEditError::UnknownCategory("bogus".to_string()));
    assert_eq!(
        err.message(),
        "unknown memory category `bogus` (expected one of: user, feedback, project, reference)"
    );
    assert_eq!(entry_line("user", "##  ", "T"), Err(MemoryEditError::EmptyEntry));
    assert_eq!(entry_line("user", " # ", "T").unwrap(), "- (T) #\n");
    assert_eq!(validate_replacement("user", "  "), Err(MemoryEditError::EmptyReplacement));
    assert_eq!(validate_replacement("user", "# new").unwrap(), "new");
}

#[test]
fn remove_and_replace_first_matching_bullet() {
    let content = "- (t1) use tabs not spaces\n- (t2) keep PRs small";
    assert_eq!(
        remove_entry_in(content, "tabs").as_deref(),
        Some("- (t2) keep PRs small")
    );
    assert_eq!(remove_entry_in(content, "nonexistent"), None);
    assert_eq!(
        replace_entry_in(content, "small", "prefers Go now", "t3").as_deref(),
        Some("- (t1) use tabs not spaces\n- (t3) prefers Go now")
    );
    // The timestamp itself is not searched.
    assert_eq!(remove_entry_in(content, "t1"), None);
}

fn create(entries: &mut Vec<DecisionEntry>, id: &str, cat: &str, text: &str) {
    decision_create_at(entries, id, "Title", cat, text, "2026-01-01 00:00 UTC").unwrap();
}

#[test]
fn decision_lifecycle_keeps_history() {
    let mut entries = Vec::new();
    decision_create_at(
        &mut entries,
        "api-auth",
        "API auth scheme",
        "architecture",
        "Use Bearer tokens for the public API.",
        "2026-01-01 00:00 UTC",
    )
    .unwrap();
    assert_eq!(entries.len(), 1);
    assert_eq!(entries[0].history.len(), 1);
    assert_eq!(entries[0].history[0].kind, DecisionEventKind::Decision);
    assert_eq!(
        decision_create_at(&mut entries, "api-auth", "x", "y", "z", "t"),
        Err(DecisionError::AlreadyExists("api-auth".to_string()))
    );
    assert_eq!(
        decision_create_at(&mut entries, " ", "x", "y", "z", "t"),
        Err(DecisionError::EmptyIdOrCurrent)
    );
    assert_eq!(decision_revise_at(&mut entries, "api-auth", "v2", "switched to mTLS", "t2"), Ok(true));
    assert_eq!(entries[0].current, "v2");
    assert_eq!(entries[0].history[1].kind, DecisionEventKind::Revision);
    assert_eq!(decision_revise_at(&mut entries, "nope", "x", "y", "t"), Ok(false));
    assert_eq!(
        decision_revise_at(&mut entries, "api-auth", "  ", "y", "t"),
        Err(DecisionError::EmptyRevision)
    );
    assert!(decision_reverse_at(&mut entries, "api-auth", "superseded by gateway", "t3"));
    assert!(entries[0].reversed);
    assert_eq!(entries[0].current, "v2");
    assert!(!decision_reverse_at(&mut entries, "api-auth", "again", "t4"));
    assert_eq!(decision_revise_at(&mut entries, "api-auth", "v3", "late", "t5"), Ok(false));
    assert_eq!(entries[0].history.len(), 3);
    assert_eq!(entries[0].history[2].kind, DecisionEventKind::Reversal);
}

#[test]
fn decision_log_round_trips_through_render_and_parse() {
    let mut entries = Vec::new();
    create(&mut entries, "d1", "cat", "line1\nline2");
    decision_revise_at(&mut entries, "d1", "v2", "reason A", "t2").unwrap();
    decision_reverse_at(&mut entries, "d1", "overturned", "t3");
    create(&mut entries, "d2", "", "plain");
    let rendered = render_decisions(&entries);
    assert!(decision_headings_ok_exec(&rendered));
    let first = parse_decisions(&rendered);
    assert_eq!(first.len(), 2);
    assert!(first[0].reversed);
    assert_eq!(first[0].current, "v2");
    assert_eq!(first[0].category, "cat");
    assert_eq!(first[0].history.len(), 3);
    assert_eq!(first[1].category, "");
    let second = parse_decisions(&render_decisions(&first));
    assert_eq!(first, second);
}

#[test]
fn round_trip_gives_entries_back_with_timestamps() {
    let mut entries = Vec::new();
    decision_create_at(&mut entries, "x-1", "", "", "only line", "2026-02-02 10:00 UTC").unwrap();
    decision_create_at(&mut entries, "x-2", "Gate", "ops", "first", "2026-02-03 11:00 UTC").unwrap();
    decision_revise_at(&mut entries, "x-2", "a\nb\nc", "split up", "2026-02-03 12:00 UTC").unwrap();
    decision_reverse_at(&mut entries, "x-2", "", "2026-02-04 12:00 UTC");
    let parsed = parse_decisions(&render_decisions(&entries));
    assert_eq!(parsed.len(), 2);
    for (p, e) in parsed.iter().zip(entries.iter()) {
        assert_eq!(p.id, e.id);
        assert_eq!(p.title, e.title);
        assert_eq!(p.category, e.category);
        assert_eq!(p.current, e.current);
        assert_eq!(p.reversed, e.reversed);
        assert_eq!(p.history, e.history);
        assert_eq!(p.created, e.created);
        assert_eq!(p.updated, e.updated);
        assert!(!e.created.is_empty());
    }
    assert_eq!(parsed[1].created, "2026-02-03 11:00 UTC");
    assert_eq!(parsed[1].updated, "2026-02-04 12:00 UTC");
    assert_eq!(parsed[1].current, "a\nb\nc");
    assert_eq!(parsed[1].history[2].summary, "");
}

#[test]
fn a_history_value_may_hold_its_own_key() {
    let mut entries = Vec::new();
    decision_create_at(&mut entries, "k", "T", "", "v1", "2026-03-01 09:00 UTC").unwrap();
    decision_revise_at(&mut entries, "k", "v2", "see summary: below", "2026-03-02 09:00 UTC").unwrap();
    let parsed = parse_decisions(&render_decisions(&entries));
    assert_eq!(parsed[0].history, entries[0].history);
    assert_eq!(parsed[0].history[1].summary, "see summary: below");
}

#[test]
fn unreadable_headings_are_detected() {
    assert!(!decision_headings_ok_exec("# title (id:"));
    assert!(!decision_headings_ok_exec("# title (id:é)"));
    assert!(decision_headings_ok_exec("# title (id: x)"));
}

#[test]
fn decision_brief_orders_by_update_and_limits() {
    let mut entries = Vec::new();
    decision_create_at(&mut entries, "a", "A", "", "first\nmore", "2026-01-01").unwrap();
    decision_create_at(&mut entries, "b", "B", "", "second", "2026-01-03").unwrap();
    decision_create_at(&mut entries, "c", "C", "", "third", "2026-01-02").unwrap();
    let all = compose_decision_block(true, entries, "/m/decisions.md", 0).unwrap();
    assert_eq!(
        all,
        "<decision_brief source=\"/m/decisions.md\">\n- [b]: second  (why: second)\n- [c]: third  (why: third)\n- [a]: first  (why: first\nmore)\n</decision_brief>"
    );
    assert_eq!(compose_decision_block(true, Vec::new(), "x", 0), None);
}

#[test]
fn paths_match_ignores_case_on_both_sides() {
    let active = vec!["src/api/login.ts".to_string()];
    assert!(paths_match(&["SRC/API/*.ts".to_string()], &active));
    let upper = vec!["SRC/Api/Login.TS".to_string()];
    assert!(paths_match(&["src/api/*.ts".to_string()], &upper));
}

#[test]
fn decision_brief_after_reading_the_log_lists_latest_first() {
    let mut entries = Vec::new();
    decision_create_at(&mut entries, "a", "A", "", "older", "2026-01-01 09:00 UTC").unwrap();
    decision_create_at(&mut entries, "b", "B", "", "newer", "2026-01-01 09:01 UTC").unwrap();
    let parsed = parse_decisions(&render_decisions(&entries));
    let block = compose_decision_block(true, parsed, "/m/decisions.md", 0).unwrap();
    let b_at = block.find("- [b]").unwrap();
    let a_at = block.find("- [a]").unwrap();
    assert!(b_at < a_at);
}
