use mimofan_core::fleet::task_checks::{
    json_path_lookup, json_path_segments, json_truthy, safe_path_segment, validate_tags,
    validate_worker_model, validate_worker_token,
};
use mimofan_core::json::JsonValue;

fn strs(v: &[&str]) -> Vec<String> {
    v.iter().map(|s| s.to_string()).collect()
}

#[test]
fn worker_tokens_are_simple_tokens() {
    assert!(validate_worker_token("t1", "worker.loadout", None).is_ok());
    assert!(validate_worker_token("t1", "worker.loadout", Some("fast-1.2_x")).is_ok());
    assert_eq!(
        validate_worker_token("t1", "worker.loadout", Some("  ")).unwrap_err().message,
        "fleet task t1 worker.loadout cannot be empty"
    );
    assert_eq!(
        validate_worker_token("t1", "worker.agent_profile", Some("a/b")).unwrap_err().message,
        "fleet task t1 worker.agent_profile must be a simple token, not a path or provider/model id"
    );
    assert!(validate_worker_token("t1", "worker.model_class", Some(" fast")).is_err());
}

#[test]
fn worker_models_are_visible_ids() {
    assert!(validate_worker_model("t2", Some("openai/gpt-5")).is_ok());
    assert!(validate_worker_model("t2", None).is_ok());
    assert_eq!(
        validate_worker_model("t2", Some("")).unwrap_err().message,
        "fleet task t2 worker.model cannot be empty"
    );
    assert_eq!(
        validate_worker_model("t2", Some("key=secret")).unwrap_err().message,
        "fleet task t2 worker.model must be a visible model id without whitespace or secrets"
    );
    assert!(validate_worker_model("t2", Some("a b")).is_err());
}

#[test]
fn tags_must_be_present_and_distinct() {
    assert!(validate_tags("t3", &strs(&["a", "b"])).is_ok());
    assert!(validate_tags("t3", &[]).is_ok());
    assert_eq!(validate_tags("t3", &strs(&["a", " "])).unwrap_err().message, "fleet task t3 tag cannot be empty");
    assert_eq!(
        validate_tags("t3", &strs(&["a", "b", "a"])).unwrap_err().message,
        "fleet task t3 has duplicate tag a"
    );
    // The first problem in order wins.
    assert_eq!(
        validate_tags("t3", &strs(&["a", "a", ""])).unwrap_err().message,
        "fleet task t3 has duplicate tag a"
    );
}

#[test]
fn json_paths_are_split_into_fields() {
    assert_eq!(json_path_segments("$.a.b"), Some(strs(&["a", "b"])));
    assert_eq!(json_path_segments("  .x  "), Some(strs(&["x"])));
    assert_eq!(json_path_segments("a.b"), None);
    assert_eq!(json_path_segments("$."), None);
    assert_eq!(json_path_segments("$.a..b"), None);
    assert_eq!(json_path_segments("$.a."), None);
}

#[test]
fn json_paths_look_values_up() {
    let doc = JsonValue::Object(vec![
        (
            "result".to_string(),
            JsonValue::Object(vec![("ok".to_string(), JsonValue::Bool(true))]),
        ),
        ("n".to_string(), JsonValue::Number("3".to_string())),
    ]);
    let found = json_path_lookup(&doc, &strs(&["result", "ok"])).unwrap();
    assert!(json_truthy(found));
    assert!(json_path_lookup(&doc, &strs(&["result", "missing"])).is_none());
    assert!(json_path_lookup(&doc, &strs(&["n", "deeper"])).is_none());
    assert!(json_path_lookup(&doc, &[]).is_some());
    assert!(!json_truthy(&JsonValue::Null));
    assert!(!json_truthy(&JsonValue::Bool(false)));
    assert!(json_truthy(&JsonValue::Number("0".to_string())));
}

#[test]
fn path_segments_are_made_file_safe() {
    assert_eq!(safe_path_segment("run/1 x"), "run_1_x");
    assert_eq!(safe_path_segment("ok-1_2.log"), "ok-1_2.log");
    assert_eq!(safe_path_segment("é"), "_");
}
