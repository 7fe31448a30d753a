use mimofan_core::memory_stats::{MemoryStats, CONSOLIDATION_NOTE, LAST_RECALL_NOTE};

#[test]
fn disabled_snapshot_is_empty() {
    let stats = MemoryStats::snapshot(false, true, &vec![Some("x".to_string())], 99);
    assert!(!stats.enabled);
    assert_eq!(stats.one_line(), "disabled");
    assert!(!stats.index_present);
    assert_eq!(stats.categories_present, 0);
    assert_eq!(stats.index_token_estimate, 0);
    assert_eq!(stats.last_recall_note, LAST_RECALL_NOTE);
}

#[test]
fn enabled_snapshot_counts_non_blank_categories() {
    let contents = vec![
        Some("- a fact".to_string()),
        Some("   \n".to_string()),
        None,
        Some("x".to_string()),
    ];
    let stats = MemoryStats::snapshot(true, true, &contents, 42);
    assert_eq!(stats.categories_present, 2);
    assert_eq!(stats.one_line(), "enabled, 2 cat, ~42 tok");
    assert_eq!(stats.consolidation_note, CONSOLIDATION_NOTE);
}

#[test]
fn render_includes_all_dimensions() {
    let stats = MemoryStats::snapshot(true, false, &Vec::new(), 7);
    let rendered = stats.render();
    assert_eq!(
        rendered,
        "Memory Stats\n=============\n  enabled:            true\n  index_present:      false\n  categories_present: 0 / 4\n  index_token_est:    7 tokens (snapshot)\n  last_recall:        n/a (file-based memory has no recall timestamp)\n  consolidation:      not tracked (no consolidation trigger in code yet)\n  vector_memory:      see `/vmemory` (requires MIMOFAN_MEMORY_API_KEY)\n"
    );
    assert!(rendered.contains("/vmemory"));
    let default = MemoryStats::default();
    assert_eq!(default.last_recall_note, "");
}

/// A memory directory that does not exist: no category file can be read,
/// there is no index, and so no index block to estimate.
fn missing_dir_categories() -> Vec<Option<String>> {
    vec![None, None, None, None]
}

#[test]
fn disabled_yields_disabled_snapshot_without_touching_fs() {
    let stats = MemoryStats::snapshot(false, false, &missing_dir_categories(), 0);
    assert!(!stats.enabled);
    assert_eq!(stats.one_line(), "disabled");
    assert!(!stats.index_present);
    assert_eq!(stats.categories_present, 0);
    assert_eq!(stats.index_token_estimate, 0);
}

#[test]
fn render_includes_all_dimensions_and_never_panics() {
    let stats = MemoryStats::snapshot(true, false, &missing_dir_categories(), 0);
    let rendered = stats.render();
    assert!(rendered.contains("enabled:"));
    assert!(rendered.contains("categories_present:"));
    assert!(rendered.contains("last_recall:"));
    assert!(rendered.contains("consolidation:"));
    assert!(rendered.contains("/vmemory"));
}
