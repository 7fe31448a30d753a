use mimofan_core::fleet::scoring::{score_task_result, EvidenceRead, FailureKind, ScorerSpec, TaskResult};
use mimofan_core::json::JsonValue;

fn text(s: &str) -> EvidenceRead {
    EvidenceRead::Text(s.to_string())
}

fn no_json() -> Result<JsonValue, String> {
    Err(String::new())
}

#[test]
fn exit_code_scorer_passes_only_on_zero() {
    let s = Some(ScorerSpec::ExitCode);
    let ok = score_task_result(&s, Some(0), false, false, &text(""), &no_json());
    assert_eq!(ok.result, TaskResult::Pass);
    assert_eq!(ok.score_halves, 2);
    assert_eq!(ok.evidence, "exit_code=0");
    let bad = score_task_result(&s, Some(-3), false, false, &text(""), &no_json());
    assert_eq!(bad.result, TaskResult::Fail);
    assert_eq!(bad.failure_kind, Some(FailureKind::Task));
    assert_eq!(bad.evidence, "exit_code=-3");
    assert_eq!(bad.notes, "worker task exited unsuccessfully");
    let none = score_task_result(&s, None, false, false, &text(""), &no_json());
    assert_eq!(none.failure_kind, Some(FailureKind::Transport));
    assert_eq!(none.evidence, "missing exit code");
}

#[test]
fn file_and_regex_scorers() {
    let f = Some(ScorerSpec::FileExists { path: "out.txt".to_string() });
    assert_eq!(score_task_result(&f, None, false, true, &text(""), &no_json()).evidence, "file exists: out.txt");
    assert_eq!(score_task_result(&f, None, false, false, &text(""), &no_json()).evidence, "missing file: out.txt");
    let r = Some(ScorerSpec::RegexMatch { path: "log".to_string(), pattern: "ok\\d+".to_string() });
    let hit = score_task_result(&r, None, false, false, &text("all ok42"), &no_json());
    assert_eq!(hit.result, TaskResult::Pass);
    assert_eq!(hit.evidence, "regex matched log: ok\\d+");
    let miss = score_task_result(&r, None, false, false, &text("nothing"), &no_json());
    assert_eq!(miss.evidence, "regex did not match log: ok\\d+");
    let unreadable = EvidenceRead::Unreadable { kind: FailureKind::Verifier, evidence: "cannot read log".to_string() };
    let u = score_task_result(&r, None, false, false, &unreadable, &no_json());
    assert_eq!(u.failure_kind, Some(FailureKind::Verifier));
    assert_eq!(u.evidence, "cannot read log");
    assert_eq!(u.notes, "regex scorer could not read bounded evidence");
    let broken = Some(ScorerSpec::RegexMatch { path: "log".to_string(), pattern: "(".to_string() });
    let b = score_task_result(&broken, None, false, false, &text("x"), &no_json());
    assert_eq!(b.failure_kind, Some(FailureKind::Verifier));
    assert!(b.evidence.starts_with("invalid regex: "));
    assert!(b.evidence.len() > "invalid regex: ".len());
}

#[test]
fn json_path_scorer() {
    let j = Some(ScorerSpec::JsonPath { path: "r.json".to_string(), expression: "$.a.ok".to_string() });
    let doc = |v: JsonValue| {
        Ok(JsonValue::Object(vec![("a".to_string(), JsonValue::Object(vec![("ok".to_string(), v)]))]))
    };
    let pass = score_task_result(&j, None, false, false, &text("{}"), &doc(JsonValue::Bool(true)));
    assert_eq!(pass.evidence, "json_path matched r.json: $.a.ok");
    let falsy = score_task_result(&j, None, false, false, &text("{}"), &doc(JsonValue::Bool(false)));
    assert_eq!(falsy.evidence, "json_path missing or false in r.json: $.a.ok");
    let null = score_task_result(&j, None, false, false, &text("{}"), &doc(JsonValue::Null));
    assert_eq!(null.result, TaskResult::Fail);
    let invalid = score_task_result(&j, None, false, false, &text("{"), &Err("EOF".to_string()));
    assert_eq!(invalid.evidence, "invalid JSON in r.json: EOF");
    let bad_expr = Some(ScorerSpec::JsonPath { path: "r.json".to_string(), expression: "a[0]".to_string() });
    let e = score_task_result(&bad_expr, None, false, false, &text("{}"), &no_json());
    assert_eq!(e.evidence, "unsupported JSON path expression: a[0]");
}

#[test]
fn other_scorers_give_partial_results() {
    let c = Some(ScorerSpec::Command { command: "make check".to_string() });
    let p = score_task_result(&c, Some(0), false, false, &text(""), &no_json());
    assert_eq!(p.result, TaskResult::Partial);
    assert_eq!(p.score_halves, 1);
    assert_eq!(p.evidence, "external scorer command configured: make check");
    let m = score_task_result(&Some(ScorerSpec::Manual), Some(0), false, false, &text(""), &no_json());
    assert_eq!(m.notes, "manual verification is required to finalize this receipt");
    let none = score_task_result(&None, Some(0), false, false, &text(""), &no_json());
    assert_eq!(none.evidence, "no scorer configured and no verifiable artifacts recorded");
    let with = score_task_result(&None, Some(0), true, false, &text(""), &no_json());
    assert_eq!(with.evidence, "no scorer configured");
}
